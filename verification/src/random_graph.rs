//! A synthetic random graph, fully determined by a seed.
//!
//! The graph is generated once at construction: a linear-congruential
//! stream proposes neighbours for every node, each accepted edge is kept
//! in both directions, and the resulting edge list is sorted and
//! de-duplicated.  The construction establishes every invariant the
//! classifier relies on: strictly ascending adjacency, no self-loops, and
//! a symmetric edge relation.

use vstd::prelude::*;
use vstd::multiset::Multiset;

use crate::graph::{strictly_sorted, Graph, TypedGraph};

verus! {

/// Lexicographic order on edge pairs, allowing equality.
pub open spec fn lex_le(a: (usize, usize), b: (usize, usize)) -> bool {
    a.0 < b.0 || (a.0 == b.0 && a.1 <= b.1)
}

/// Strict lexicographic order on edge pairs.
pub open spec fn lex_lt(a: (usize, usize), b: (usize, usize)) -> bool {
    a.0 < b.0 || (a.0 == b.0 && a.1 < b.1)
}

/// The pair sequence is strictly ascending lexicographically.
pub open spec fn lex_sorted(s: Seq<(usize, usize)>) -> bool {
    forall|i: int, j: int| 0 <= i < j < s.len() ==> lex_lt(s[i], s[j])
}

/// Every pair names two distinct valid nodes.
pub open spec fn pairs_valid(s: Seq<(usize, usize)>, n: usize) -> bool {
    forall|p: (usize, usize)| s.contains(p) ==> p.0 < n && p.1 < n && p.0 != p.1
}

/// The pair set is symmetric: each direction of an edge appears.
pub open spec fn pairs_symmetric(s: Seq<(usize, usize)>) -> bool {
    forall|p: (usize, usize)| s.contains(p) ==> s.contains((p.1, p.0))
}

/// The predicate keeping the edges that leave node `v`.
pub open spec fn edge_from_pred(v: int) -> spec_fn((usize, usize)) -> bool {
    |e: (usize, usize)| e.0 as int == v
}

/// The second component of an edge pair.
pub open spec fn edge_dst_fn() -> spec_fn((usize, usize)) -> usize {
    |e: (usize, usize)| e.1
}

/// The neighbour list encoded by an edge sequence: the destinations of
/// the edges leaving `v`, in sequence order.
pub open spec fn spec_neighbour_seq(edges: Seq<(usize, usize)>, v: int) -> Seq<usize> {
    edges.filter(edge_from_pred(v)).map_values(edge_dst_fn())
}

/// A neighbour list holds `w` exactly when the edge sequence holds the
/// pair `(v, w)`.
proof fn lemma_neighbour_seq_contains(edges: Seq<(usize, usize)>, v: usize, w: usize)
    ensures
        spec_neighbour_seq(edges, v as int).contains(w) <==> edges.contains((v, w)),
{
    let f = edges.filter(edge_from_pred(v as int));
    let m = spec_neighbour_seq(edges, v as int);
    if edges.contains((v, w)) {
        let i = choose|i: int| 0 <= i < edges.len() && edges[i] == (v, w);
        edges.lemma_filter_contains(edge_from_pred(v as int), i);
        let k = choose|k: int| 0 <= k < f.len() && f[k] == (v, w);
        assert(m[k] == w);
        assert(m.contains(w));
    }
    if m.contains(w) {
        let k = choose|k: int| 0 <= k < m.len() && m[k] == w;
        edges.lemma_filter_pred(edge_from_pred(v as int), k);
        assert(f[k].0 == v && f[k].1 == w);
        assert(f[k] == (v, w));
        assert(f.contains((v, w)));
        edges.lemma_filter_contains_rev(edge_from_pred(v as int), (v, w));
    }
}

/// The neighbour list of a strictly lexicographically sorted edge
/// sequence is strictly ascending.
proof fn lemma_neighbour_seq_sorted(edges: Seq<(usize, usize)>, v: usize)
    requires
        lex_sorted(edges),
    ensures
        strictly_sorted(spec_neighbour_seq(edges, v as int)),
    decreases edges.len(),
{
    reveal(Seq::filter);
    if edges.len() == 0 {
    } else {
        let pre = edges.drop_last();
        let last = edges.last();
        lemma_neighbour_seq_sorted(pre, v);
        let fp = pre.filter(edge_from_pred(v as int));
        let f = edges.filter(edge_from_pred(v as int));
        if last.0 == v {
            assert(f == fp.push(last));
            assert(spec_neighbour_seq(edges, v as int) =~= spec_neighbour_seq(
                pre,
                v as int,
            ).push(last.1));
            assert forall|k: int| 0 <= k < fp.len() implies fp[k].1 < last.1 by {
                pre.lemma_filter_pred(edge_from_pred(v as int), k);
                assert(fp.contains(fp[k]));
                pre.lemma_filter_contains_rev(edge_from_pred(v as int), fp[k]);
                let i = choose|i: int| 0 <= i < pre.len() && pre[i] == fp[k];
                assert(lex_lt(edges[i], last));
            }
        } else {
            assert(f == fp);
            assert(spec_neighbour_seq(edges, v as int) =~= spec_neighbour_seq(pre, v as int));
        }
    }
}

/// Sorts edge pairs lexicographically by repeated minimum selection,
/// keeping the multiset of pairs.
fn sort_pairs(pairs: Vec<(usize, usize)>) -> (r: Vec<(usize, usize)>)
    ensures
        r@.to_multiset() == pairs@.to_multiset(),
        forall|i: int, j: int| 0 <= i < j < r@.len() ==> lex_le(r@[i], r@[j]),
{
    broadcast use vstd::seq_lib::group_to_multiset_ensures;
    broadcast use vstd::multiset::group_multiset_axioms;

    let mut rest = pairs;
    let mut out: Vec<(usize, usize)> = Vec::new();
    while rest.len() > 0
        invariant
            out@.to_multiset().add(rest@.to_multiset()) == pairs@.to_multiset(),
            forall|i: int, j: int| 0 <= i < j < out@.len() ==> lex_le(out@[i], out@[j]),
            forall|i: int, j: int|
                0 <= i < out@.len() && 0 <= j < rest@.len() ==> lex_le(out@[i], rest@[j]),
        decreases rest@.len(),
    {
        let mut best: usize = 0;
        let mut k: usize = 1;
        while k < rest.len()
            invariant
                best < rest@.len(),
                k <= rest@.len(),
                rest@.len() > 0,
                forall|j: int| 0 <= j < k ==> lex_le(rest@[best as int], rest@[j]),
            decreases rest@.len() - k,
        {
            let (rk0, rk1) = rest[k];
            let (rb0, rb1) = rest[best];
            if rk0 < rb0 || (rk0 == rb0 && rk1 < rb1) {
                best = k;
            }
            k = k + 1;
        }
        let ghost old_rest = rest@;
        let chosen = rest.remove(best);
        let ghost old_out = out@;
        out.push(chosen);
        proof {
            assert(old_rest[best as int] == chosen);
            assert(old_rest.contains(chosen));
            assert(rest@ == old_rest.remove(best as int));
            vstd::seq_lib::to_multiset_contains(old_rest, chosen);
            assert(old_rest.to_multiset().count(chosen) > 0);
            vstd::seq_lib::to_multiset_remove(old_rest, best as int);
            assert(rest@.to_multiset() =~= old_rest.to_multiset().remove(chosen));
            assert(out@ == old_out.push(chosen));
            vstd::seq_lib::to_multiset_build(old_out, chosen);
            assert(out@.to_multiset() =~= old_out.to_multiset().insert(chosen));
            assert(out@.to_multiset().add(rest@.to_multiset()) =~= pairs@.to_multiset());
            assert forall|j: int| 0 <= j < rest@.len() implies lex_le(chosen, rest@[j]) by {
                if j < best {
                    assert(rest@[j] == old_rest[j]);
                } else {
                    assert(rest@[j] == old_rest[j + 1]);
                }
            }
        }
    }
    proof {
        assert(rest@.to_multiset() =~= Multiset::<(usize, usize)>::empty());
        assert(out@.to_multiset() =~= pairs@.to_multiset());
    }
    out
}

/// Removes adjacent duplicates from a lexicographically sorted pair
/// sequence, keeping the set of pairs and making the order strict.
fn dedup_pairs(pairs: Vec<(usize, usize)>) -> (r: Vec<(usize, usize)>)
    requires
        forall|i: int, j: int| 0 <= i < j < pairs@.len() ==> lex_le(pairs@[i], pairs@[j]),
    ensures
        lex_sorted(r@),
        forall|p: (usize, usize)| r@.contains(p) <==> pairs@.contains(p),
{
    let mut out: Vec<(usize, usize)> = Vec::new();
    let mut i: usize = 0;
    while i < pairs.len()
        invariant
            i <= pairs@.len(),
            forall|a: int, b: int| 0 <= a < b < pairs@.len() ==> lex_le(pairs@[a], pairs@[b]),
            lex_sorted(out@),
            i > 0 ==> out@.len() > 0 && out@.last() == pairs@[i - 1],
            i == 0 ==> out@.len() == 0,
            forall|p: (usize, usize)| out@.contains(p) <==> pairs@.take(i as int).contains(p),
        decreases pairs@.len() - i,
    {
        let p = pairs[i];
        let ghost old_out = out@;
        let mut push_it = true;
        if out.len() > 0 {
            let (l0, l1) = out[out.len() - 1];
            if l0 == p.0 && l1 == p.1 {
                push_it = false;
            }
        }
        if push_it {
            out.push(p);
        }
        proof {
            if push_it && old_out.len() > 0 {
                assert(lex_le(pairs@[i - 1], pairs@[i as int]));
                assert(lex_lt(old_out.last(), p));
                assert forall|k: int| 0 <= k < old_out.len() implies lex_lt(
                    #[trigger] old_out[k],
                    p,
                ) by {
                    if k < old_out.len() - 1 {
                        assert(lex_lt(old_out[k], old_out.last()));
                    }
                }
            }
            assert(pairs@.take(i + 1).drop_last() =~= pairs@.take(i as int));
            assert(pairs@.take(i + 1).last() == pairs@[i as int]);
            assert forall|q: (usize, usize)| out@.contains(q) implies pairs@.take(
                i + 1,
            ).contains(q) by {
                if old_out.contains(q) {
                    let k = choose|k: int| 0 <= k < old_out.len() && old_out[k] == q;
                    assert(pairs@.take(i as int).contains(q));
                    let k2 = choose|k2: int|
                        0 <= k2 < pairs@.take(i as int).len() && pairs@.take(i as int)[k2] == q;
                    assert(pairs@.take(i + 1)[k2] == q);
                } else {
                    assert(pairs@.take(i + 1)[i as int] == q);
                }
            }
            assert forall|q: (usize, usize)| pairs@.take(i + 1).contains(q) implies out@.contains(
                q,
            ) by {
                let k = choose|k: int| 0 <= k < pairs@.take(i + 1).len() && #[trigger] pairs@.take(i + 1)[k] == q;
                if k < i {
                    assert(pairs@.take(i as int)[k] == q);
                    assert(old_out.contains(q));
                    let k3 = choose|k3: int| 0 <= k3 < old_out.len() && old_out[k3] == q;
                    assert(out@[k3] == q);
                } else {
                    if push_it {
                        assert(out@.last() == q);
                    } else {
                        assert(old_out.last() == q);
                        assert(out@.last() == q);
                    }
                }
            }
        }
        i = i + 1;
    }
    proof {
        assert(pairs@.take(pairs@.len() as int) =~= pairs@);
    }
    out
}

/// Implicit graph fully represented by the provided random state and the
/// number of nodes.
pub struct RandomGraph {
    /// The seed driving the linear-congruential stream.
    pub random_state: usize,
    /// The number of nodes in the graph.
    pub number_of_nodes: usize,
    /// The largest number of neighbours proposed per node.
    pub maximal_node_degree: usize,
    /// The number of node labels in the graph.
    pub number_of_labels: usize,
    /// Every edge in both directions, strictly sorted and distinct.
    pub rasterized_edges: Vec<(usize, usize)>,
}

impl RandomGraph {
    /// Create a new RandomGraph from the provided random state and number
    /// of nodes.
    pub fn new(
        random_state: usize,
        number_of_nodes: usize,
        maximal_node_degree: usize,
        number_of_labels: usize,
    ) -> (r: RandomGraph)
        requires
            number_of_nodes >= 1,
            number_of_labels >= 1,
        ensures
            r.number_of_nodes == number_of_nodes,
            r.number_of_labels == number_of_labels,
            r.random_state == random_state,
            lex_sorted(r.rasterized_edges@),
            pairs_valid(r.rasterized_edges@, number_of_nodes),
            pairs_symmetric(r.rasterized_edges@),
            crate::graph::graph_wf(&r),
            number_of_labels >= 2 ==> crate::graph::typed_graph_wf(&r),
    {
        broadcast use vstd::seq_lib::group_to_multiset_ensures;

        let mut generated: Vec<(usize, usize)> = Vec::new();
        let mut node_id: usize = 0;
        while node_id < number_of_nodes
            invariant
                number_of_nodes >= 1,
                node_id <= number_of_nodes,
                pairs_valid(generated@, number_of_nodes),
                pairs_symmetric(generated@),
            decreases number_of_nodes - node_id,
        {
            let mut counter: usize = random_state;
            let mut step: usize = 0;
            while step < maximal_node_degree
                invariant
                    number_of_nodes >= 1,
                    node_id < number_of_nodes,
                    step <= maximal_node_degree,
                    pairs_valid(generated@, number_of_nodes),
                    pairs_symmetric(generated@),
                ensures
                    pairs_valid(generated@, number_of_nodes),
                    pairs_symmetric(generated@),
                decreases maximal_node_degree - step,
            {
                counter = counter.wrapping_mul(1103515245).wrapping_add(12345);
                let dst = counter % number_of_nodes;
                if dst != node_id && dst % (node_id + 1) != 0 {
                    let ghost before = generated@;
                    generated.push((node_id, dst));
                    generated.push((dst, node_id));
                    proof {
                        assert(generated@ == before.push((node_id, dst)).push((dst, node_id)));
                        assert forall|p: (usize, usize)| generated@.contains(p) implies p.0
                            < number_of_nodes && p.1 < number_of_nodes && p.0 != p.1 by {
                            if !before.contains(p) {
                                assert(p == (node_id, dst) || p == (dst, node_id));
                            }
                        }
                        assert forall|p: (usize, usize)| generated@.contains(p)
                            implies generated@.contains((p.1, p.0)) by {
                            if before.contains(p) {
                                assert(before.contains((p.1, p.0)));
                                let k = choose|k: int|
                                    0 <= k < before.len() && before[k] == (p.1, p.0);
                                assert(generated@[k] == (p.1, p.0));
                            } else {
                                assert(p == (node_id, dst) || p == (dst, node_id));
                                assert(generated@[generated@.len() - 1] == (dst, node_id));
                                assert(generated@[generated@.len() - 2] == (node_id, dst));
                            }
                        }
                    }
                } else {
                    break ;
                }
                step = step + 1;
            }
            node_id = node_id + 1;
        }
        let sorted = sort_pairs(generated);
        proof {
            assert forall|p: (usize, usize)| sorted@.contains(p) <==> generated@.contains(p) by {
                assert(sorted@.contains(p) <==> sorted@.to_multiset().count(p) > 0);
                assert(generated@.contains(p) <==> generated@.to_multiset().count(p) > 0);
            }
        }
        let rasterized_edges = dedup_pairs(sorted);
        let r = RandomGraph {
            random_state,
            number_of_nodes,
            maximal_node_degree,
            number_of_labels,
            rasterized_edges,
        };
        proof {
            assert(pairs_valid(r.rasterized_edges@, number_of_nodes));
            assert(pairs_symmetric(r.rasterized_edges@)) by {
                assert forall|p: (usize, usize)| r.rasterized_edges@.contains(p)
                    implies r.rasterized_edges@.contains((p.1, p.0)) by {
                    assert(generated@.contains(p));
                    assert(generated@.contains((p.1, p.0)));
                }
            }
            lemma_random_graph_wf(&r);
        }
        r
    }

    /// Iterates over the neighbours of the given node, in ascending order.
    pub fn iter_neighbours_from_node_id(&self, node_id: usize) -> (r: Vec<usize>)
        ensures
            r@ == spec_neighbour_seq(self.rasterized_edges@, node_id as int),
    {
        let ghost p = edge_from_pred(node_id as int);
        let mut r: Vec<usize> = Vec::new();
        let mut i: usize = 0;
        proof {
            reveal(Seq::filter);
            assert(self.rasterized_edges@.take(0).filter(p) =~= Seq::<(usize, usize)>::empty());
            assert(spec_neighbour_seq(self.rasterized_edges@.take(0), node_id as int) =~= Seq::<
                usize,
            >::empty());
        }
        while i < self.rasterized_edges.len()
            invariant
                i <= self.rasterized_edges@.len(),
                p == edge_from_pred(node_id as int),
                r@ == spec_neighbour_seq(self.rasterized_edges@.take(i as int), node_id as int),
            decreases self.rasterized_edges@.len() - i,
        {
            let (src, dst) = self.rasterized_edges[i];
            proof {
                let edges = self.rasterized_edges@;
                reveal(Seq::filter);
                assert(edges.take(i + 1).drop_last() =~= edges.take(i as int));
                assert(edges.take(i + 1).last() == edges[i as int]);
                if src == node_id {
                    assert(spec_neighbour_seq(edges.take(i + 1), node_id as int)
                        =~= spec_neighbour_seq(edges.take(i as int), node_id as int).push(dst));
                } else {
                    assert(spec_neighbour_seq(edges.take(i + 1), node_id as int)
                        =~= spec_neighbour_seq(edges.take(i as int), node_id as int));
                }
            }
            if src == node_id {
                r.push(dst);
            }
            i = i + 1;
        }
        proof {
            assert(self.rasterized_edges@.take(self.rasterized_edges@.len() as int)
                =~= self.rasterized_edges@);
        }
        r
    }

    /// Iterates over every stored edge, both directions included.
    pub fn iter_edges(&self) -> (r: Vec<(usize, usize)>)
        ensures
            r@ == self.rasterized_edges@,
    {
        let mut r: Vec<(usize, usize)> = Vec::new();
        let mut i: usize = 0;
        while i < self.rasterized_edges.len()
            invariant
                i <= self.rasterized_edges@.len(),
                r@ == self.rasterized_edges@.take(i as int),
            decreases self.rasterized_edges@.len() - i,
        {
            r.push(self.rasterized_edges[i]);
            proof {
                assert(self.rasterized_edges@.take(i + 1) =~= self.rasterized_edges@.take(
                    i as int,
                ).push(self.rasterized_edges@[i as int]));
            }
            i = i + 1;
        }
        proof {
            assert(self.rasterized_edges@.take(self.rasterized_edges@.len() as int)
                =~= self.rasterized_edges@);
        }
        r
    }

    /// Returns the degree of the given node.
    pub fn get_node_degree(&self, node_id: usize) -> (r: usize)
        ensures
            r == spec_neighbour_seq(self.rasterized_edges@, node_id as int).len(),
    {
        let neighbours = self.iter_neighbours_from_node_id(node_id);
        neighbours.len()
    }
}

/// A freshly built random graph satisfies every graph invariant the
/// classifier relies on.
proof fn lemma_random_graph_wf(g: &RandomGraph)
    requires
        lex_sorted(g.rasterized_edges@),
        pairs_valid(g.rasterized_edges@, g.number_of_nodes),
        pairs_symmetric(g.rasterized_edges@),
        g.number_of_labels >= 1,
    ensures
        crate::graph::graph_wf(g),
{
    let n = g.number_of_nodes;
    let edges = g.rasterized_edges@;
    assert forall|v: int| 0 <= v < n implies strictly_sorted(#[trigger] g.spec_adjacency(v)) by {
        lemma_neighbour_seq_sorted(edges, v as usize);
    }
    assert forall|v: int, j: int|
        0 <= v < n && 0 <= j < g.spec_adjacency(v).len() implies (#[trigger] g.spec_adjacency(
        v,
    )[j]) < n by {
        let w = g.spec_adjacency(v)[j];
        assert(g.spec_adjacency(v).contains(w));
        lemma_neighbour_seq_contains(edges, v as usize, w);
    }
    assert forall|v: int| 0 <= v < n implies !(#[trigger] g.spec_adjacency(v)).contains(
        v as usize,
    ) by {
        lemma_neighbour_seq_contains(edges, v as usize, v as usize);
    }
    assert forall|u: int, w: int|
        0 <= u < n && 0 <= w < n && #[trigger] g.spec_adjacency(u).contains(w as usize)
        implies g.spec_adjacency(w).contains(u as usize) by {
        lemma_neighbour_seq_contains(edges, u as usize, w as usize);
        lemma_neighbour_seq_contains(edges, w as usize, u as usize);
        assert(edges.contains((u as usize, w as usize)));
    }
}

impl Graph for RandomGraph {
    open spec fn spec_node_count(&self) -> nat {
        self.number_of_nodes as nat
    }

    open spec fn spec_edge_count(&self) -> nat {
        self.rasterized_edges@.len()
    }

    open spec fn spec_adjacency(&self, node: int) -> Seq<usize> {
        spec_neighbour_seq(self.rasterized_edges@, node)
    }

    fn get_number_of_nodes(&self) -> (n: usize) {
        self.number_of_nodes
    }

    fn get_number_of_edges(&self) -> (n: usize) {
        self.rasterized_edges.len()
    }

    fn iter_neighbours(&self, node: usize) -> (v: Vec<usize>) {
        self.iter_neighbours_from_node_id(node)
    }
}

impl TypedGraph for RandomGraph {
    open spec fn spec_label_count(&self) -> nat {
        self.number_of_labels as nat
    }

    open spec fn spec_label(&self, node: int) -> usize {
        if self.number_of_labels == 0 {
            0
        } else {
            vstd::wrapping::usize_specs::wrapping_mul(node as usize, self.random_state)
                % self.number_of_labels
        }
    }

    fn get_number_of_node_labels(&self) -> (l: usize) {
        self.number_of_labels
    }

    fn get_number_of_node_labels_usize(&self) -> (l: usize) {
        self.number_of_labels
    }

    fn get_number_of_node_label_from_usize(&self, label_index: usize) -> (l: usize) {
        label_index
    }

    fn get_number_of_node_label_index(&self, label: usize) -> (i: usize) {
        label
    }

    fn get_node_label(&self, node: usize) -> (l: usize) {
        if self.number_of_labels == 0 {
            0
        } else {
            node.wrapping_mul(self.random_state) % self.number_of_labels
        }
    }
}

impl crate::edge_typed_graphlets::HeterogeneousGraphlets for RandomGraph {
}

} // verus!
