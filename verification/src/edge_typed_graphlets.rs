//! The heterogeneous graphlet classifier.
//!
//! Given an edge `(src, dst)` of a typed graph, the classifier counts
//! every connected graphlet of up to four nodes that the edge participates
//! in, keyed by the labels of the participating nodes.  The neighbourhood
//! of the edge is split into the common neighbours (each closing a
//! triangle) and the neighbours exclusive to one endpoint (each opening a
//! triad); a second-order scan over each such node's own neighbours
//! classifies the four-node graphlets, and closed-form formulas derive the
//! four orbit counts that the scan cannot observe directly.

use vstd::prelude::*;

use crate::graph::{typed_graph_wf, Graph, TypedGraph};
use crate::graphlet_counter::{DenseGraphletCounter, GraphLetCounter};
use crate::graphlet_set::{ExtendedGraphletType, GraphletSet};
use crate::neighbourhoods::{
    common_pred, exclusive_pred, is_neighbour, lemma_filter_take_step,
    lemma_filtered_nodes_bounded, sorted_contains, spec_common_neighbours, spec_count_with_label,
};
use crate::perfect_graphlet_hash::{
    lemma_encode_le_maximal, lemma_keys_distinct_dummy, lemma_keys_distinct_kinds,
    lemma_keys_distinct_pairs, spec_encode, spec_maximal_hash, PerfectGraphletHash,
};
use crate::utils::{lemma_sat_cap_add, lemma_sat_cap_add_both, sat_cap, sat_nat};

verus! {

/// The sum of a per-root weight over a sequence of roots.
pub open spec fn spec_sum(s: Seq<usize>, f: spec_fn(usize) -> nat) -> nat
    decreases s.len(),
{
    if s.len() == 0 {
        0
    } else {
        spec_sum(s.drop_last(), f) + f(s.last())
    }
}

/// Extending the summed prefix by one root adds that root's weight.
pub proof fn lemma_sum_take_step(s: Seq<usize>, f: spec_fn(usize) -> nat, i: int)
    requires
        0 <= i < s.len(),
    ensures
        spec_sum(s.take(i + 1), f) == spec_sum(s.take(i), f) + f(s[i]),
{
    assert(s.take(i + 1).drop_last() =~= s.take(i));
    assert(s.take(i + 1).last() == s[i]);
}

/// How many members of `s` satisfy `p`.
pub open spec fn spec_count_matching(s: Seq<usize>, p: spec_fn(usize) -> bool) -> nat {
    s.filter(p).len()
}

/// Restricts a second-order predicate to nodes carrying label `b`.
pub open spec fn and_label_pred<G: TypedGraph>(
    g: &G,
    b: usize,
    p: spec_fn(usize) -> bool,
) -> spec_fn(usize) -> bool {
    |m: usize| p(m) && g.spec_label(m as int) == b
}

/// The weight a root contributes to the count of a second-order kind at
/// key digits `(c, d)`: the number of its neighbours that satisfy the
/// kind's condition and carry the second-order label, provided the root
/// itself carries the root label.
pub open spec fn pair_weight<G: TypedGraph>(
    g: &G,
    fam: spec_fn(usize) -> spec_fn(usize) -> bool,
    root_label: usize,
    second_label: usize,
) -> spec_fn(usize) -> nat {
    |r: usize|
        if g.spec_label(r as int) == root_label {
            spec_count_matching(g.spec_adjacency(r as int), and_label_pred(g, second_label, fam(r)))
        } else {
            0
        }
}

/// The number of second-order pairs `(root, m)` of a kind: `root` ranges
/// over `roots` and carries `root_label`, `m` over `root`'s neighbours
/// satisfying the kind's condition and carrying `second_label`.
pub open spec fn pair_count<G: TypedGraph>(
    g: &G,
    roots: Seq<usize>,
    fam: spec_fn(usize) -> spec_fn(usize) -> bool,
    root_label: usize,
    second_label: usize,
) -> nat {
    spec_sum(roots, pair_weight(g, fam, root_label, second_label))
}

/// Four-clique condition, rooted at a triangle node: the second-order
/// neighbour closes triangles with both endpoints and is canonically
/// ordered below the root so each clique is counted once.
pub open spec fn four_clique_fam<G: Graph>(g: &G, src: usize, dst: usize) -> spec_fn(usize) -> spec_fn(
    usize,
) -> bool {
    |root: usize|
        |m: usize|
            m != src && m != dst && is_neighbour(g, src, m) && is_neighbour(g, dst, m) && m <= root
}

/// Chordal-cycle edge condition, rooted at a triangle node: the
/// second-order neighbour is adjacent to exactly one endpoint.
pub open spec fn chordal_cycle_edge_fam<G: Graph>(g: &G, src: usize, dst: usize) -> spec_fn(usize) -> spec_fn(
    usize,
) -> bool {
    |root: usize|
        |m: usize| m != src && m != dst && (is_neighbour(g, src, m) != is_neighbour(g, dst, m))
}

/// Detached condition: the second-order neighbour is adjacent to neither
/// endpoint.  Rooted at a triangle node this is a tailed-triangle center;
/// rooted at an exclusive neighbour it is a four-path edge.
pub open spec fn detached_fam<G: Graph>(g: &G, src: usize, dst: usize) -> spec_fn(usize) -> spec_fn(
    usize,
) -> bool {
    |root: usize|
        |m: usize| m != src && m != dst && !is_neighbour(g, src, m) && !is_neighbour(g, dst, m)
}

/// Tailed-triangle tail condition, rooted at an exclusive neighbour of the
/// endpoint `rooted` (the other endpoint being `other`): the second-order
/// neighbour is adjacent solely to `rooted` and is canonically ordered at
/// or below the root.
pub open spec fn tailed_tri_tail_fam<G: Graph>(
    g: &G,
    src: usize,
    dst: usize,
    rooted: usize,
    other: usize,
) -> spec_fn(usize) -> spec_fn(usize) -> bool {
    |root: usize|
        |m: usize|
            m != src && m != dst && is_neighbour(g, rooted, m) && !is_neighbour(g, other, m) && m
                <= root
}

/// Four-cycle condition, rooted at an exclusive neighbour of the
/// destination only: the second-order neighbour is adjacent solely to the
/// source, closing the cycle; the destination-rooted direction is the
/// canonical one, so source-rooted scans never count it.
pub open spec fn four_cycle_fam<G: Graph>(
    g: &G,
    src: usize,
    dst: usize,
    dst_rooted: bool,
) -> spec_fn(usize) -> spec_fn(usize) -> bool {
    |root: usize|
        |m: usize|
            dst_rooted && m != src && m != dst && is_neighbour(g, src, m) && !is_neighbour(
                g,
                dst,
                m,
            )
}

/// Slot `(c, d)` of a label-pair matrix stored row by row.
pub open spec fn mat_at(mat: Seq<usize>, labels: usize, c: int, d: int) -> usize {
    mat[c * labels + d]
}

/// Distinct label pairs use distinct matrix slots.
proof fn lemma_matrix_index(c1: int, d1: int, c2: int, d2: int, labels: int)
    requires
        labels >= 1,
        0 <= c1 < labels,
        0 <= d1 < labels,
        0 <= c2 < labels,
        0 <= d2 < labels,
    ensures
        0 <= c1 * labels + d1 < labels * labels,
        (c1, d1) != (c2, d2) ==> c1 * labels + d1 != c2 * labels + d2,
{
    assert(0 <= c1 * labels + d1 < labels * labels) by (nonlinear_arith)
        requires
            labels >= 1 && 0 <= c1 < labels && 0 <= d1 < labels,
    ;
    if !(c1 == c2 && d1 == d2) {
        assert(c1 * labels + d1 != c2 * labels + d2) by (nonlinear_arith)
            requires
                labels >= 1 && 0 <= c1 < labels && 0 <= d1 < labels && 0 <= c2 < labels && 0 <= d2
                    < labels && !(c1 == c2 && d1 == d2),
        ;
    }
}

/// A fresh all-zero label-pair matrix.
fn zero_matrix(labels: usize) -> (r: Vec<usize>)
    requires
        labels >= 1,
        labels * labels <= usize::MAX,
    ensures
        r@.len() == labels * labels,
        forall|c: int, d: int|
            0 <= c < labels && 0 <= d < labels ==> #[trigger] mat_at(r@, labels, c, d) == 0,
{
    proof {
        assert(labels * labels >= 0) by (nonlinear_arith)
            requires
                labels >= 1,
        ;
    }
    let size = labels * labels;
    let mut r: Vec<usize> = Vec::new();
    let mut k: usize = 0;
    while k < size
        invariant
            k <= size,
            r@.len() == k,
            forall|i: int| 0 <= i < k ==> r@[i] == 0,
        decreases size - k,
    {
        r.push(0);
        k = k + 1;
    }
    proof {
        assert forall|c: int, d: int|
            0 <= c < labels && 0 <= d < labels implies #[trigger] mat_at(r@, labels, c, d)
            == 0 by {
            lemma_matrix_index(c, d, c, d, labels as int);
        }
    }
    r
}

/// Adds one occurrence at slot `(c, d)`, saturating.
fn matrix_bump(mat: &mut Vec<usize>, c: usize, d: usize, labels: usize)
    requires
        labels >= 1,
        labels * labels <= usize::MAX,
        old(mat)@.len() == labels * labels,
        c < labels,
        d < labels,
    ensures
        final(mat)@.len() == old(mat)@.len(),
        mat_at(final(mat)@, labels, c as int, d as int) == sat_cap(
            mat_at(old(mat)@, labels, c as int, d as int) + 1,
        ),
        forall|c2: int, d2: int|
            0 <= c2 < labels && 0 <= d2 < labels && (c2, d2) != (c as int, d as int)
                ==> #[trigger] mat_at(final(mat)@, labels, c2, d2) == mat_at(
                old(mat)@,
                labels,
                c2,
                d2,
            ),
{
    proof {
        lemma_matrix_index(c as int, d as int, c as int, d as int, labels as int);
    }
    let idx = c * labels + d;
    let current = mat[idx];
    mat.set(idx, current.saturating_add(1));
    proof {
        assert forall|c2: int, d2: int|
            0 <= c2 < labels && 0 <= d2 < labels && (c2, d2) != (c as int, d as int)
            implies #[trigger] mat_at(final(mat)@, labels, c2, d2) == mat_at(
            old(mat)@,
            labels,
            c2,
            d2,
        ) by {
            lemma_matrix_index(c2, d2, c as int, d as int, labels as int);
        }
    }
}

/// Reads slot `(c, d)`.
fn matrix_get(mat: &Vec<usize>, c: usize, d: usize, labels: usize) -> (r: usize)
    requires
        labels >= 1,
        labels * labels <= usize::MAX,
        mat@.len() == labels * labels,
        c < labels,
        d < labels,
    ensures
        r == mat_at(mat@, labels, c as int, d as int),
{
    proof {
        lemma_matrix_index(c as int, d as int, c as int, d as int, labels as int);
    }
    mat[c * labels + d]
}

/// Slot-wise saturating sum of two label-pair matrices.
fn matrix_add(a: &Vec<usize>, b: &Vec<usize>, labels: usize) -> (r: Vec<usize>)
    requires
        labels >= 1,
        a@.len() == labels * labels,
        b@.len() == labels * labels,
    ensures
        r@.len() == labels * labels,
        forall|c: int, d: int|
            0 <= c < labels && 0 <= d < labels ==> #[trigger] mat_at(r@, labels, c, d) == sat_cap(
                mat_at(a@, labels, c, d) + mat_at(b@, labels, c, d),
            ),
{
    let mut r: Vec<usize> = Vec::new();
    let mut k: usize = 0;
    let size = a.len();
    while k < size
        invariant
            k <= size,
            size == a@.len(),
            b@.len() == a@.len(),
            r@.len() == k,
            forall|i: int| 0 <= i < k ==> r@[i] == sat_cap(a@[i] + b@[i]),
        decreases size - k,
    {
        r.push(a[k].saturating_add(b[k]));
        k = k + 1;
    }
    proof {
        assert forall|c: int, d: int|
            0 <= c < labels && 0 <= d < labels implies #[trigger] mat_at(r@, labels, c, d)
            == sat_cap(mat_at(a@, labels, c, d) + mat_at(b@, labels, c, d)) by {
            lemma_matrix_index(c, d, c, d, labels as int);
        }
    }
    r
}

/// One step of a second-order scan, for one kind's matrix: accounting the
/// `j`-th neighbour of the `i`-th root moves the matrix from counts over
/// the first `j` neighbours to counts over the first `j + 1`.
proof fn lemma_matrix_step<G: TypedGraph>(
    g: &G,
    pre: Seq<usize>,
    post: Seq<usize>,
    labels: usize,
    roots: Seq<usize>,
    fam: spec_fn(usize) -> spec_fn(usize) -> bool,
    i: int,
    j: int,
    hit: bool,
)
    requires
        typed_graph_wf(g),
        labels == g.spec_label_count(),
        0 <= i < roots.len(),
        roots[i] < g.spec_node_count(),
        0 <= j < g.spec_adjacency(roots[i] as int).len(),
        g.spec_adjacency(roots[i] as int)[j] < g.spec_node_count(),
        pre.len() == labels * labels,
        post.len() == labels * labels,
        hit == fam(roots[i])(g.spec_adjacency(roots[i] as int)[j]),
        ({
            let root = roots[i];
            let m = g.spec_adjacency(root as int)[j];
            let rl = g.spec_label(root as int) as int;
            let ml = g.spec_label(m as int) as int;
            if hit {
                mat_at(post, labels, rl, ml) == sat_cap(mat_at(pre, labels, rl, ml) + 1)
                    && (forall|c2: int, d2: int|
                    0 <= c2 < labels && 0 <= d2 < labels && (c2, d2) != (rl, ml)
                        ==> #[trigger] mat_at(post, labels, c2, d2) == mat_at(pre, labels, c2, d2))
            } else {
                post == pre
            }
        }),
        forall|c: int, d: int|
            0 <= c < labels && 0 <= d < labels ==> #[trigger] mat_at(pre, labels, c, d) == sat_nat(
                pair_count(g, roots.take(i), fam, c as usize, d as usize) + (
                if g.spec_label(roots[i] as int) == c {
                    spec_count_matching(
                        g.spec_adjacency(roots[i] as int).take(j),
                        and_label_pred(g, d as usize, fam(roots[i])),
                    )
                } else {
                    0
                }),
            ),
    ensures
        forall|c: int, d: int|
            0 <= c < labels && 0 <= d < labels ==> #[trigger] mat_at(post, labels, c, d) == sat_nat(
                pair_count(g, roots.take(i), fam, c as usize, d as usize) + (
                if g.spec_label(roots[i] as int) == c {
                    spec_count_matching(
                        g.spec_adjacency(roots[i] as int).take(j + 1),
                        and_label_pred(g, d as usize, fam(roots[i])),
                    )
                } else {
                    0
                }),
            ),
{
    let root = roots[i];
    let r_adj = g.spec_adjacency(root as int);
    let m = r_adj[j];
    let rl = g.spec_label(root as int);
    let ml = g.spec_label(m as int);
    assert forall|c: int, d: int|
        0 <= c < labels && 0 <= d < labels implies #[trigger] mat_at(post, labels, c, d)
        == sat_nat(
        pair_count(g, roots.take(i), fam, c as usize, d as usize) + (
        if g.spec_label(roots[i] as int) == c {
            spec_count_matching(r_adj.take(j + 1), and_label_pred(g, d as usize, fam(root)))
        } else {
            0
        }),
    ) by {
        let p = and_label_pred(g, d as usize, fam(root));
        lemma_filter_take_step(r_adj, p, j);
        if hit && rl == c && ml == d {
            lemma_sat_cap_add(
                pair_count(g, roots.take(i), fam, c as usize, d as usize) as int
                    + spec_count_matching(r_adj.take(j), p) as int,
                1,
            );
        } else {
            if (c, d) != (rl as int, ml as int) && hit {
                assert(mat_at(post, labels, c, d) == mat_at(pre, labels, c, d));
            }
        }
    }
}

/// Closing a root of a second-order scan: once every neighbour of the
/// `i`-th root is accounted, the matrix holds the counts over the first
/// `i + 1` roots.
proof fn lemma_matrix_root_done<G: TypedGraph>(
    g: &G,
    mat: Seq<usize>,
    labels: usize,
    roots: Seq<usize>,
    fam: spec_fn(usize) -> spec_fn(usize) -> bool,
    i: int,
)
    requires
        typed_graph_wf(g),
        labels == g.spec_label_count(),
        0 <= i < roots.len(),
        roots[i] < g.spec_node_count(),
        mat.len() == labels * labels,
        forall|c: int, d: int|
            0 <= c < labels && 0 <= d < labels ==> #[trigger] mat_at(mat, labels, c, d) == sat_nat(
                pair_count(g, roots.take(i), fam, c as usize, d as usize) + (
                if g.spec_label(roots[i] as int) == c {
                    spec_count_matching(
                        g.spec_adjacency(roots[i] as int).take(
                            g.spec_adjacency(roots[i] as int).len() as int,
                        ),
                        and_label_pred(g, d as usize, fam(roots[i])),
                    )
                } else {
                    0
                }),
            ),
    ensures
        forall|c: int, d: int|
            0 <= c < labels && 0 <= d < labels ==> #[trigger] mat_at(mat, labels, c, d) == sat_nat(
                pair_count(g, roots.take(i + 1), fam, c as usize, d as usize),
            ),
{
    let root = roots[i];
    let r_adj = g.spec_adjacency(root as int);
    assert(r_adj.take(r_adj.len() as int) =~= r_adj);
    assert forall|c: int, d: int|
        0 <= c < labels && 0 <= d < labels implies #[trigger] mat_at(mat, labels, c, d) == sat_nat(
        pair_count(g, roots.take(i + 1), fam, c as usize, d as usize),
    ) by {
        let w = pair_weight(g, fam, c as usize, d as usize);
        lemma_sum_take_step(roots, w, i);
        assert(roots.take(i + 1)[roots.take(i + 1).len() - 1] == roots[i]);
    }
}

/// The second-order scan rooted at the common (triangle-closing)
/// neighbours: classifies each root's neighbours into four-cliques,
/// chordal-cycle edges and tailed-triangle centers, tallied by the label
/// pair `(root, second-order neighbour)`.
fn scan_triangle_rooted<G: TypedGraph>(
    g: &G,
    src: usize,
    dst: usize,
    roots: &Vec<usize>,
    labels: usize,
) -> (r: (Vec<usize>, Vec<usize>, Vec<usize>))
    requires
        typed_graph_wf(g),
        src < g.spec_node_count(),
        dst < g.spec_node_count(),
        labels == g.spec_label_count(),
        labels * labels <= usize::MAX,
        forall|k: int| 0 <= k < roots@.len() ==> (#[trigger] roots@[k]) < g.spec_node_count(),
    ensures
        r.0@.len() == labels * labels,
        r.1@.len() == labels * labels,
        r.2@.len() == labels * labels,
        forall|c: int, d: int|
            0 <= c < labels && 0 <= d < labels ==> #[trigger] mat_at(r.0@, labels, c, d) == sat_nat(
                pair_count(g, roots@, four_clique_fam(g, src, dst), c as usize, d as usize),
            ),
        forall|c: int, d: int|
            0 <= c < labels && 0 <= d < labels ==> #[trigger] mat_at(r.1@, labels, c, d) == sat_nat(
                pair_count(g, roots@, chordal_cycle_edge_fam(g, src, dst), c as usize, d as usize),
            ),
        forall|c: int, d: int|
            0 <= c < labels && 0 <= d < labels ==> #[trigger] mat_at(r.2@, labels, c, d) == sat_nat(
                pair_count(g, roots@, detached_fam(g, src, dst), c as usize, d as usize),
            ),
{
    let src_adj = g.iter_neighbours(src);
    let dst_adj = g.iter_neighbours(dst);
    let mut four_clique = zero_matrix(labels);
    let mut chordal_edge = zero_matrix(labels);
    let mut tri_center = zero_matrix(labels);
    let ghost fam_q = four_clique_fam(g, src, dst);
    let ghost fam_c = chordal_cycle_edge_fam(g, src, dst);
    let ghost fam_t = detached_fam(g, src, dst);
    let mut i: usize = 0;
    proof {
        assert(roots@.take(0) =~= Seq::<usize>::empty());
    }
    while i < roots.len()
        invariant
            typed_graph_wf(g),
            src < g.spec_node_count(),
            dst < g.spec_node_count(),
            labels == g.spec_label_count(),
            labels * labels <= usize::MAX,
            forall|k: int| 0 <= k < roots@.len() ==> (#[trigger] roots@[k]) < g.spec_node_count(),
            src_adj@ == g.spec_adjacency(src as int),
            dst_adj@ == g.spec_adjacency(dst as int),
            fam_q == four_clique_fam(g, src, dst),
            fam_c == chordal_cycle_edge_fam(g, src, dst),
            fam_t == detached_fam(g, src, dst),
            i <= roots@.len(),
            four_clique@.len() == labels * labels,
            chordal_edge@.len() == labels * labels,
            tri_center@.len() == labels * labels,
            forall|c: int, d: int|
                0 <= c < labels && 0 <= d < labels ==> #[trigger] mat_at(four_clique@, labels, c, d)
                    == sat_nat(pair_count(g, roots@.take(i as int), fam_q, c as usize, d as usize)),
            forall|c: int, d: int|
                0 <= c < labels && 0 <= d < labels ==> #[trigger] mat_at(chordal_edge@, labels, c, d)
                    == sat_nat(pair_count(g, roots@.take(i as int), fam_c, c as usize, d as usize)),
            forall|c: int, d: int|
                0 <= c < labels && 0 <= d < labels ==> #[trigger] mat_at(tri_center@, labels, c, d)
                    == sat_nat(pair_count(g, roots@.take(i as int), fam_t, c as usize, d as usize)),
        decreases roots@.len() - i,
    {
        let root = roots[i];
        let root_label = g.get_node_label(root);
        let r_adj = g.iter_neighbours(root);
        let mut j: usize = 0;
        proof {
            assert(r_adj@.take(0) =~= Seq::<usize>::empty());
            assert forall|p: spec_fn(usize) -> bool|
                true implies #[trigger] spec_count_matching(r_adj@.take(0), p) == 0 by {
                assert(r_adj@.take(0).filter(p) =~= Seq::<usize>::empty()) by {
                    reveal(Seq::filter);
                }
            }
        }
        while j < r_adj.len()
            invariant
                typed_graph_wf(g),
                src < g.spec_node_count(),
                dst < g.spec_node_count(),
                labels == g.spec_label_count(),
                labels * labels <= usize::MAX,
                forall|k: int|
                    0 <= k < roots@.len() ==> (#[trigger] roots@[k]) < g.spec_node_count(),
                src_adj@ == g.spec_adjacency(src as int),
                dst_adj@ == g.spec_adjacency(dst as int),
                fam_q == four_clique_fam(g, src, dst),
                fam_c == chordal_cycle_edge_fam(g, src, dst),
                fam_t == detached_fam(g, src, dst),
                i < roots@.len(),
                root == roots@[i as int],
                root < g.spec_node_count(),
                root_label == g.spec_label(root as int),
                r_adj@ == g.spec_adjacency(root as int),
                j <= r_adj@.len(),
                four_clique@.len() == labels * labels,
                chordal_edge@.len() == labels * labels,
                tri_center@.len() == labels * labels,
                forall|c: int, d: int|
                    0 <= c < labels && 0 <= d < labels ==> #[trigger] mat_at(
                        four_clique@,
                        labels,
                        c,
                        d,
                    ) == sat_nat(
                        pair_count(g, roots@.take(i as int), fam_q, c as usize, d as usize) + (
                        if root_label == c {
                            spec_count_matching(
                                r_adj@.take(j as int),
                                and_label_pred(g, d as usize, fam_q(root)),
                            )
                        } else {
                            0
                        }),
                    ),
                forall|c: int, d: int|
                    0 <= c < labels && 0 <= d < labels ==> #[trigger] mat_at(
                        chordal_edge@,
                        labels,
                        c,
                        d,
                    ) == sat_nat(
                        pair_count(g, roots@.take(i as int), fam_c, c as usize, d as usize) + (
                        if root_label == c {
                            spec_count_matching(
                                r_adj@.take(j as int),
                                and_label_pred(g, d as usize, fam_c(root)),
                            )
                        } else {
                            0
                        }),
                    ),
                forall|c: int, d: int|
                    0 <= c < labels && 0 <= d < labels ==> #[trigger] mat_at(
                        tri_center@,
                        labels,
                        c,
                        d,
                    ) == sat_nat(
                        pair_count(g, roots@.take(i as int), fam_t, c as usize, d as usize) + (
                        if root_label == c {
                            spec_count_matching(
                                r_adj@.take(j as int),
                                and_label_pred(g, d as usize, fam_t(root)),
                            )
                        } else {
                            0
                        }),
                    ),
            decreases r_adj@.len() - j,
        {
            let m = r_adj[j];
            let ghost pre_q = four_clique@;
            let ghost pre_c = chordal_edge@;
            let ghost pre_t = tri_center@;
            let mut hit_q = false;
            let mut hit_c = false;
            let mut hit_t = false;
            if m != src && m != dst {
                let in_s = sorted_contains(&src_adj, m);
                let in_d = sorted_contains(&dst_adj, m);
                let m_label = g.get_node_label(m);
                if in_s && in_d {
                    if m <= root {
                        matrix_bump(&mut four_clique, root_label, m_label, labels);
                        hit_q = true;
                    }
                } else if in_s || in_d {
                    matrix_bump(&mut chordal_edge, root_label, m_label, labels);
                    hit_c = true;
                } else {
                    matrix_bump(&mut tri_center, root_label, m_label, labels);
                    hit_t = true;
                }
            }
            proof {
                assert(hit_q == fam_q(root)(m));
                assert(hit_c == fam_c(root)(m));
                assert(hit_t == fam_t(root)(m));
                lemma_matrix_step(
                    g,
                    pre_q,
                    four_clique@,
                    labels,
                    roots@,
                    fam_q,
                    i as int,
                    j as int,
                    hit_q,
                );
                lemma_matrix_step(
                    g,
                    pre_c,
                    chordal_edge@,
                    labels,
                    roots@,
                    fam_c,
                    i as int,
                    j as int,
                    hit_c,
                );
                lemma_matrix_step(
                    g,
                    pre_t,
                    tri_center@,
                    labels,
                    roots@,
                    fam_t,
                    i as int,
                    j as int,
                    hit_t,
                );
            }
            j = j + 1;
        }
        proof {
            lemma_matrix_root_done(g, four_clique@, labels, roots@, fam_q, i as int);
            lemma_matrix_root_done(g, chordal_edge@, labels, roots@, fam_c, i as int);
            lemma_matrix_root_done(g, tri_center@, labels, roots@, fam_t, i as int);
        }
        i = i + 1;
    }
    proof {
        assert(roots@.take(roots@.len() as int) =~= roots@);
    }
    (four_clique, chordal_edge, tri_center)
}

/// The second-order scan rooted at the exclusive neighbours of one
/// endpoint: classifies each root's neighbours into four-path edges,
/// tailed-triangle tails and (for destination-rooted scans only)
/// four-cycles, tallied by the label pair `(root, second-order
/// neighbour)`.  `rooted` is the endpoint whose exclusive neighbours the
/// roots are; `dst_rooted` says whether that endpoint is the destination.
fn scan_path_rooted<G: TypedGraph>(
    g: &G,
    src: usize,
    dst: usize,
    roots: &Vec<usize>,
    labels: usize,
    dst_rooted: bool,
) -> (r: (Vec<usize>, Vec<usize>, Vec<usize>))
    requires
        typed_graph_wf(g),
        src < g.spec_node_count(),
        dst < g.spec_node_count(),
        labels == g.spec_label_count(),
        labels * labels <= usize::MAX,
        forall|k: int| 0 <= k < roots@.len() ==> (#[trigger] roots@[k]) < g.spec_node_count(),
    ensures
        r.0@.len() == labels * labels,
        r.1@.len() == labels * labels,
        r.2@.len() == labels * labels,
        forall|c: int, d: int|
            0 <= c < labels && 0 <= d < labels ==> #[trigger] mat_at(r.0@, labels, c, d) == sat_nat(
                pair_count(g, roots@, detached_fam(g, src, dst), c as usize, d as usize),
            ),
        forall|c: int, d: int|
            0 <= c < labels && 0 <= d < labels ==> #[trigger] mat_at(r.1@, labels, c, d) == sat_nat(
                pair_count(
                    g,
                    roots@,
                    tailed_tri_tail_fam(
                        g,
                        src,
                        dst,
                        if dst_rooted {
                            dst
                        } else {
                            src
                        },
                        if dst_rooted {
                            src
                        } else {
                            dst
                        },
                    ),
                    c as usize,
                    d as usize,
                ),
            ),
        forall|c: int, d: int|
            0 <= c < labels && 0 <= d < labels ==> #[trigger] mat_at(r.2@, labels, c, d) == sat_nat(
                pair_count(g, roots@, four_cycle_fam(g, src, dst, dst_rooted), c as usize, d as usize),
            ),
{
    let src_adj = g.iter_neighbours(src);
    let dst_adj = g.iter_neighbours(dst);
    let mut path_edge = zero_matrix(labels);
    let mut tri_tail = zero_matrix(labels);
    let mut four_cycle = zero_matrix(labels);
    let ghost fam_p = detached_fam(g, src, dst);
    let ghost fam_l = tailed_tri_tail_fam(
        g,
        src,
        dst,
        if dst_rooted {
            dst
        } else {
            src
        },
        if dst_rooted {
            src
        } else {
            dst
        },
    );
    let ghost fam_y = four_cycle_fam(g, src, dst, dst_rooted);
    let mut i: usize = 0;
    proof {
        assert(roots@.take(0) =~= Seq::<usize>::empty());
    }
    while i < roots.len()
        invariant
            typed_graph_wf(g),
            src < g.spec_node_count(),
            dst < g.spec_node_count(),
            labels == g.spec_label_count(),
            labels * labels <= usize::MAX,
            forall|k: int| 0 <= k < roots@.len() ==> (#[trigger] roots@[k]) < g.spec_node_count(),
            src_adj@ == g.spec_adjacency(src as int),
            dst_adj@ == g.spec_adjacency(dst as int),
            fam_p == detached_fam(g, src, dst),
            fam_l == tailed_tri_tail_fam(
                g,
                src,
                dst,
                if dst_rooted {
                    dst
                } else {
                    src
                },
                if dst_rooted {
                    src
                } else {
                    dst
                },
            ),
            fam_y == four_cycle_fam(g, src, dst, dst_rooted),
            i <= roots@.len(),
            path_edge@.len() == labels * labels,
            tri_tail@.len() == labels * labels,
            four_cycle@.len() == labels * labels,
            forall|c: int, d: int|
                0 <= c < labels && 0 <= d < labels ==> #[trigger] mat_at(path_edge@, labels, c, d)
                    == sat_nat(pair_count(g, roots@.take(i as int), fam_p, c as usize, d as usize)),
            forall|c: int, d: int|
                0 <= c < labels && 0 <= d < labels ==> #[trigger] mat_at(tri_tail@, labels, c, d)
                    == sat_nat(pair_count(g, roots@.take(i as int), fam_l, c as usize, d as usize)),
            forall|c: int, d: int|
                0 <= c < labels && 0 <= d < labels ==> #[trigger] mat_at(four_cycle@, labels, c, d)
                    == sat_nat(pair_count(g, roots@.take(i as int), fam_y, c as usize, d as usize)),
        decreases roots@.len() - i,
    {
        let root = roots[i];
        let root_label = g.get_node_label(root);
        let r_adj = g.iter_neighbours(root);
        let mut j: usize = 0;
        proof {
            assert forall|p: spec_fn(usize) -> bool|
                true implies #[trigger] spec_count_matching(r_adj@.take(0), p) == 0 by {
                assert(r_adj@.take(0).filter(p) =~= Seq::<usize>::empty()) by {
                    reveal(Seq::filter);
                }
            }
        }
        while j < r_adj.len()
            invariant
                typed_graph_wf(g),
                src < g.spec_node_count(),
                dst < g.spec_node_count(),
                labels == g.spec_label_count(),
                labels * labels <= usize::MAX,
                forall|k: int|
                    0 <= k < roots@.len() ==> (#[trigger] roots@[k]) < g.spec_node_count(),
                src_adj@ == g.spec_adjacency(src as int),
                dst_adj@ == g.spec_adjacency(dst as int),
                fam_p == detached_fam(g, src, dst),
                fam_l == tailed_tri_tail_fam(
                    g,
                    src,
                    dst,
                    if dst_rooted {
                        dst
                    } else {
                        src
                    },
                    if dst_rooted {
                        src
                    } else {
                        dst
                    },
                ),
                fam_y == four_cycle_fam(g, src, dst, dst_rooted),
                i < roots@.len(),
                root == roots@[i as int],
                root < g.spec_node_count(),
                root_label == g.spec_label(root as int),
                r_adj@ == g.spec_adjacency(root as int),
                j <= r_adj@.len(),
                path_edge@.len() == labels * labels,
                tri_tail@.len() == labels * labels,
                four_cycle@.len() == labels * labels,
                forall|c: int, d: int|
                    0 <= c < labels && 0 <= d < labels ==> #[trigger] mat_at(
                        path_edge@,
                        labels,
                        c,
                        d,
                    ) == sat_nat(
                        pair_count(g, roots@.take(i as int), fam_p, c as usize, d as usize) + (
                        if root_label == c {
                            spec_count_matching(
                                r_adj@.take(j as int),
                                and_label_pred(g, d as usize, fam_p(root)),
                            )
                        } else {
                            0
                        }),
                    ),
                forall|c: int, d: int|
                    0 <= c < labels && 0 <= d < labels ==> #[trigger] mat_at(
                        tri_tail@,
                        labels,
                        c,
                        d,
                    ) == sat_nat(
                        pair_count(g, roots@.take(i as int), fam_l, c as usize, d as usize) + (
                        if root_label == c {
                            spec_count_matching(
                                r_adj@.take(j as int),
                                and_label_pred(g, d as usize, fam_l(root)),
                            )
                        } else {
                            0
                        }),
                    ),
                forall|c: int, d: int|
                    0 <= c < labels && 0 <= d < labels ==> #[trigger] mat_at(
                        four_cycle@,
                        labels,
                        c,
                        d,
                    ) == sat_nat(
                        pair_count(g, roots@.take(i as int), fam_y, c as usize, d as usize) + (
                        if root_label == c {
                            spec_count_matching(
                                r_adj@.take(j as int),
                                and_label_pred(g, d as usize, fam_y(root)),
                            )
                        } else {
                            0
                        }),
                    ),
            decreases r_adj@.len() - j,
        {
            let m = r_adj[j];
            let ghost pre_p = path_edge@;
            let ghost pre_l = tri_tail@;
            let ghost pre_y = four_cycle@;
            let mut hit_p = false;
            let mut hit_l = false;
            let mut hit_y = false;
            if m != src && m != dst {
                let in_s = sorted_contains(&src_adj, m);
                let in_d = sorted_contains(&dst_adj, m);
                let m_label = g.get_node_label(m);
                let in_rooted = if dst_rooted {
                    in_d
                } else {
                    in_s
                };
                let in_other = if dst_rooted {
                    in_s
                } else {
                    in_d
                };
                if !in_s && !in_d {
                    matrix_bump(&mut path_edge, root_label, m_label, labels);
                    hit_p = true;
                } else if in_rooted && !in_other && m <= root {
                    matrix_bump(&mut tri_tail, root_label, m_label, labels);
                    hit_l = true;
                } else if dst_rooted && in_other && !in_rooted {
                    matrix_bump(&mut four_cycle, root_label, m_label, labels);
                    hit_y = true;
                }
            }
            proof {
                assert(hit_p == fam_p(root)(m));
                assert(hit_l == fam_l(root)(m));
                assert(hit_y == fam_y(root)(m));
                lemma_matrix_step(
                    g,
                    pre_p,
                    path_edge@,
                    labels,
                    roots@,
                    fam_p,
                    i as int,
                    j as int,
                    hit_p,
                );
                lemma_matrix_step(
                    g,
                    pre_l,
                    tri_tail@,
                    labels,
                    roots@,
                    fam_l,
                    i as int,
                    j as int,
                    hit_l,
                );
                lemma_matrix_step(
                    g,
                    pre_y,
                    four_cycle@,
                    labels,
                    roots@,
                    fam_y,
                    i as int,
                    j as int,
                    hit_y,
                );
            }
            j = j + 1;
        }
        proof {
            lemma_matrix_root_done(g, path_edge@, labels, roots@, fam_p, i as int);
            lemma_matrix_root_done(g, tri_tail@, labels, roots@, fam_l, i as int);
            lemma_matrix_root_done(g, four_cycle@, labels, roots@, fam_y, i as int);
        }
        i = i + 1;
    }
    proof {
        assert(roots@.take(roots@.len() as int) =~= roots@);
    }
    (path_edge, tri_tail, four_cycle)
}


/// The key under which the classifier records a graphlet of kind
/// `kind_idx` with free label digits `(c, d)`, for an edge whose endpoint
/// labels are `(st, dt)` in a graph with `l` labels.
pub open spec fn spec_kind_key(st: usize, dt: usize, l: usize, c: int, d: int, kind_idx: int) -> int {
    spec_encode(st as int, dt as int, c, d, kind_idx, l as int)
}

/// Whether `k` is a key that a graphlet of kind `kind_idx` can be
/// recorded under for this edge: exactly the digit pairs the classifier
/// writes for that kind — a label with the dummy fourth digit for the two
/// three-node kinds, two labels for the four-node kinds.
pub open spec fn spec_is_kind_key(st: usize, dt: usize, l: usize, kind_idx: int, k: int) -> bool {
    if kind_idx == ExtendedGraphletType::Triad.spec_index() || kind_idx
        == ExtendedGraphletType::Triangle.spec_index() {
        exists|c: int| 0 <= c < l && k == spec_kind_key(st, dt, l, c, l as int, kind_idx)
    } else {
        exists|c: int, d: int|
            0 <= c < l && 0 <= d < l && k == spec_kind_key(st, dt, l, c, d, kind_idx)
    }
}

/// Records a whole label-pair matrix of one kind into the counter: slot
/// `(c, d)` is added to the count at the key with digits `(c, d)`.  Keys
/// of every other kind, and every key outside this kind's image, are left
/// unchanged.
fn insert_matrix(
    counter: &mut DenseGraphletCounter,
    st: usize,
    dt: usize,
    labels: usize,
    kind: ExtendedGraphletType,
    mat: &Vec<usize>,
)
    requires
        old(counter).wf(),
        old(counter).spec_number_of_elements() == labels,
        st < labels,
        dt < labels,
        mat@.len() == labels * labels,
        kind.spec_index() != ExtendedGraphletType::Triad.spec_index(),
        kind.spec_index() != ExtendedGraphletType::Triangle.spec_index(),
    ensures
        final(counter).wf(),
        final(counter).spec_number_of_elements() == labels,
        final(counter).spec_counts().len() == old(counter).spec_counts().len(),
        forall|c: int, d: int|
            0 <= c < labels && 0 <= d < labels ==> final(counter).spec_counts()[#[trigger] spec_kind_key(
                st,
                dt,
                labels,
                c,
                d,
                kind.spec_index(),
            )] == sat_cap(
                old(counter).spec_counts()[spec_kind_key(st, dt, labels, c, d, kind.spec_index())]
                    + mat_at(mat@, labels, c, d),
            ),
        forall|c: int, d: int, k2: int|
            0 <= c < labels && 0 <= d <= labels && 0 <= k2 <= 11 && k2 != kind.spec_index()
                ==> final(counter).spec_counts()[#[trigger] spec_kind_key(st, dt, labels, c, d, k2)]
                == old(counter).spec_counts()[spec_kind_key(st, dt, labels, c, d, k2)],
        forall|k: int|
            0 <= k < old(counter).spec_counts().len() && !spec_is_kind_key(
                st,
                dt,
                labels,
                kind.spec_index(),
                k,
            ) ==> final(counter).spec_counts()[k] == old(counter).spec_counts()[k],
{
    let ghost kind_idx = kind.spec_index();
    let ghost initial = counter.spec_counts();
    proof {
        kind.lemma_index_in_range();
    }
    let mut c: usize = 0;
    while c < labels
        invariant
            counter.wf(),
            counter.spec_number_of_elements() == labels,
            counter.spec_counts().len() == initial.len(),
            st < labels,
            dt < labels,
            mat@.len() == labels * labels,
            kind_idx == kind.spec_index(),
            0 <= kind_idx <= 11,
            c <= labels,
            initial == old(counter).spec_counts(),
            forall|c1: int, d1: int|
                0 <= c1 < c && 0 <= d1 < labels ==> counter.spec_counts()[#[trigger] spec_kind_key(
                    st,
                    dt,
                    labels,
                    c1,
                    d1,
                    kind_idx,
                )] == sat_cap(
                    initial[spec_kind_key(st, dt, labels, c1, d1, kind_idx)] + mat_at(
                        mat@,
                        labels,
                        c1,
                        d1,
                    ),
                ),
            forall|k: int|
                0 <= k < initial.len() && (forall|c1: int, d1: int|
                    0 <= c1 < c && 0 <= d1 < labels ==> k != #[trigger] spec_kind_key(
                        st,
                        dt,
                        labels,
                        c1,
                        d1,
                        kind_idx,
                    )) ==> counter.spec_counts()[k] == initial[k],
        decreases labels - c,
    {
        let mut d: usize = 0;
        while d < labels
            invariant
                counter.wf(),
                counter.spec_number_of_elements() == labels,
                counter.spec_counts().len() == initial.len(),
                st < labels,
                dt < labels,
                mat@.len() == labels * labels,
                kind_idx == kind.spec_index(),
                0 <= kind_idx <= 11,
                c < labels,
                d <= labels,
                initial == old(counter).spec_counts(),
                forall|c1: int, d1: int|
                    0 <= c1 < labels && 0 <= d1 < labels && (c1 < c || (c1 == c && d1 < d))
                        ==> counter.spec_counts()[#[trigger] spec_kind_key(
                        st,
                        dt,
                        labels,
                        c1,
                        d1,
                        kind_idx,
                    )] == sat_cap(
                        initial[spec_kind_key(st, dt, labels, c1, d1, kind_idx)] + mat_at(
                            mat@,
                            labels,
                            c1,
                            d1,
                        ),
                    ),
                forall|k: int|
                    0 <= k < initial.len() && (forall|c1: int, d1: int|
                        0 <= c1 < labels && 0 <= d1 < labels && (c1 < c || (c1 == c && d1 < d))
                            ==> k != #[trigger] spec_kind_key(st, dt, labels, c1, d1, kind_idx))
                        ==> counter.spec_counts()[k] == initial[k],
            decreases labels - d,
        {
            let ghost pre = counter.spec_counts();
            let ghost key_cd = spec_kind_key(st, dt, labels, c as int, d as int, kind_idx);
            proof {
                lemma_encode_le_maximal(
                    st as int,
                    dt as int,
                    c as int,
                    d as int,
                    kind_idx,
                    ExtendedGraphletType::spec_number_of_graphlets(),
                    labels as int,
                );
                // the key about to be written has not been touched yet
                assert forall|c1: int, d1: int|
                    0 <= c1 < labels && 0 <= d1 < labels && (c1 < c || (c1 == c && d1 < d))
                    implies key_cd != #[trigger] spec_kind_key(st, dt, labels, c1, d1, kind_idx) by {
                    lemma_keys_distinct_pairs(
                        st as int,
                        dt as int,
                        c as int,
                        d as int,
                        c1,
                        d1,
                        kind_idx,
                        labels as int,
                    );
                }
            }
            let key = (st, dt, c, d).encode_with_graphlet(kind, labels);
            let value = matrix_get(mat, c, d, labels);
            counter.insert_count(key, value);
            proof {
                assert forall|c1: int, d1: int|
                    0 <= c1 < labels && 0 <= d1 < labels && (c1 < c || (c1 == c && d1 < d + 1))
                    implies counter.spec_counts()[#[trigger] spec_kind_key(
                    st,
                    dt,
                    labels,
                    c1,
                    d1,
                    kind_idx,
                )] == sat_cap(
                    initial[spec_kind_key(st, dt, labels, c1, d1, kind_idx)] + mat_at(
                        mat@,
                        labels,
                        c1,
                        d1,
                    ),
                ) by {
                    lemma_encode_le_maximal(
                        st as int,
                        dt as int,
                        c1,
                        d1,
                        kind_idx,
                        ExtendedGraphletType::spec_number_of_graphlets(),
                        labels as int,
                    );
                    if c1 == c && d1 == d {
                    } else {
                        lemma_keys_distinct_pairs(
                            st as int,
                            dt as int,
                            c1,
                            d1,
                            c as int,
                            d as int,
                            kind_idx,
                            labels as int,
                        );
                    }
                }
            }
            d = d + 1;
        }
        c = c + 1;
    }
    proof {
        assert forall|k: int|
            0 <= k < initial.len() && !spec_is_kind_key(st, dt, labels, kind_idx, k)
            implies counter.spec_counts()[k] == initial[k] by {
            assert forall|c1: int, d1: int|
                0 <= c1 < labels && 0 <= d1 < labels implies k != #[trigger] spec_kind_key(
                st,
                dt,
                labels,
                c1,
                d1,
                kind_idx,
            ) by {
            }
        }
        assert forall|c: int, d: int, k2: int|
            0 <= c < labels && 0 <= d <= labels && 0 <= k2 <= 11 && k2 != kind.spec_index()
            implies counter.spec_counts()[#[trigger] spec_kind_key(st, dt, labels, c, d, k2)]
            == initial[spec_kind_key(st, dt, labels, c, d, k2)] by {
            let key2 = spec_kind_key(st, dt, labels, c, d, k2);
            assert forall|c1: int, d1: int|
                0 <= c1 < labels && 0 <= d1 <= labels implies key2 != #[trigger] spec_kind_key(
                st,
                dt,
                labels,
                c1,
                d1,
                kind_idx,
            ) by {
                lemma_keys_distinct_kinds(
                    st as int,
                    dt as int,
                    c,
                    d,
                    k2,
                    c1,
                    d1,
                    kind_idx,
                    labels as int,
                );
            }
            assert(!spec_is_kind_key(st, dt, labels, kind_idx, key2));
            lemma_encode_le_maximal(
                st as int,
                dt as int,
                c,
                d,
                k2,
                ExtendedGraphletType::spec_number_of_graphlets(),
                labels as int,
            );
        }
    }
}

/// Records a per-label count vector of one three-node kind into the
/// counter: slot `t` is added to the count at the key whose third digit is
/// `t` and whose fourth digit carries the dummy value `labels`.  Keys of
/// every other kind, and every key outside this kind's image, are left
/// unchanged.
fn insert_labelled_counts(
    counter: &mut DenseGraphletCounter,
    st: usize,
    dt: usize,
    labels: usize,
    kind: ExtendedGraphletType,
    values: &Vec<usize>,
)
    requires
        old(counter).wf(),
        old(counter).spec_number_of_elements() == labels,
        st < labels,
        dt < labels,
        values@.len() == labels,
        kind == ExtendedGraphletType::Triad || kind == ExtendedGraphletType::Triangle,
    ensures
        final(counter).wf(),
        final(counter).spec_number_of_elements() == labels,
        final(counter).spec_counts().len() == old(counter).spec_counts().len(),
        forall|t: int|
            0 <= t < labels ==> final(counter).spec_counts()[#[trigger] spec_kind_key(
                st,
                dt,
                labels,
                t,
                labels as int,
                kind.spec_index(),
            )] == sat_cap(
                old(counter).spec_counts()[spec_kind_key(
                    st,
                    dt,
                    labels,
                    t,
                    labels as int,
                    kind.spec_index(),
                )] + values@[t],
            ),
        forall|c: int, d: int, k2: int|
            0 <= c < labels && 0 <= d <= labels && 0 <= k2 <= 11 && k2 != kind.spec_index()
                ==> final(counter).spec_counts()[#[trigger] spec_kind_key(st, dt, labels, c, d, k2)]
                == old(counter).spec_counts()[spec_kind_key(st, dt, labels, c, d, k2)],
        forall|k: int|
            0 <= k < old(counter).spec_counts().len() && !spec_is_kind_key(
                st,
                dt,
                labels,
                kind.spec_index(),
                k,
            ) ==> final(counter).spec_counts()[k] == old(counter).spec_counts()[k],
{
    let ghost kind_idx = kind.spec_index();
    let ghost initial = counter.spec_counts();
    proof {
        kind.lemma_index_in_range();
    }
    let mut t: usize = 0;
    while t < labels
        invariant
            counter.wf(),
            counter.spec_number_of_elements() == labels,
            counter.spec_counts().len() == initial.len(),
            st < labels,
            dt < labels,
            values@.len() == labels,
            kind_idx == kind.spec_index(),
            0 <= kind_idx <= 11,
            t <= labels,
            initial == old(counter).spec_counts(),
            forall|t1: int|
                0 <= t1 < t ==> counter.spec_counts()[#[trigger] spec_kind_key(
                    st,
                    dt,
                    labels,
                    t1,
                    labels as int,
                    kind_idx,
                )] == sat_cap(
                    initial[spec_kind_key(st, dt, labels, t1, labels as int, kind_idx)]
                        + values@[t1],
                ),
            forall|k: int|
                0 <= k < initial.len() && (forall|t1: int|
                    0 <= t1 < t ==> k != #[trigger] spec_kind_key(
                        st,
                        dt,
                        labels,
                        t1,
                        labels as int,
                        kind_idx,
                    )) ==> counter.spec_counts()[k] == initial[k],
        decreases labels - t,
    {
        let ghost key_t = spec_kind_key(st, dt, labels, t as int, labels as int, kind_idx);
        proof {
            lemma_encode_le_maximal(
                st as int,
                dt as int,
                t as int,
                labels as int,
                kind_idx,
                ExtendedGraphletType::spec_number_of_graphlets(),
                labels as int,
            );
            assert forall|t1: int| 0 <= t1 < t implies key_t != #[trigger] spec_kind_key(
                st,
                dt,
                labels,
                t1,
                labels as int,
                kind_idx,
            ) by {
                lemma_keys_distinct_dummy(
                    st as int,
                    dt as int,
                    t as int,
                    t1,
                    kind_idx,
                    labels as int,
                );
            }
        }
        let key = (st, dt, t, labels).encode_with_graphlet(kind, labels);
        let value = values[t];
        counter.insert_count(key, value);
        proof {
            assert forall|t1: int| 0 <= t1 < t + 1 implies counter.spec_counts()[
            #[trigger] spec_kind_key(st, dt, labels, t1, labels as int, kind_idx)] == sat_cap(
                initial[spec_kind_key(st, dt, labels, t1, labels as int, kind_idx)] + values@[t1],
            ) by {
                lemma_encode_le_maximal(
                    st as int,
                    dt as int,
                    t1,
                    labels as int,
                    kind_idx,
                    ExtendedGraphletType::spec_number_of_graphlets(),
                    labels as int,
                );
                if t1 != t {
                    lemma_keys_distinct_dummy(
                        st as int,
                        dt as int,
                        t1,
                        t as int,
                        kind_idx,
                        labels as int,
                    );
                }
            }
        }
        t = t + 1;
    }
    proof {
        assert forall|k: int|
            0 <= k < initial.len() && !spec_is_kind_key(st, dt, labels, kind_idx, k)
            implies counter.spec_counts()[k] == initial[k] by {
            assert forall|t1: int| 0 <= t1 < labels implies k != #[trigger] spec_kind_key(
                st,
                dt,
                labels,
                t1,
                labels as int,
                kind_idx,
            ) by {
            }
        }
        assert forall|c: int, d: int, k2: int|
            0 <= c < labels && 0 <= d <= labels && 0 <= k2 <= 11 && k2 != kind.spec_index()
            implies counter.spec_counts()[#[trigger] spec_kind_key(st, dt, labels, c, d, k2)]
            == initial[spec_kind_key(st, dt, labels, c, d, k2)] by {
            let key2 = spec_kind_key(st, dt, labels, c, d, k2);
            assert forall|c1: int, d1: int|
                0 <= c1 < labels && 0 <= d1 <= labels implies key2 != #[trigger] spec_kind_key(
                st,
                dt,
                labels,
                c1,
                d1,
                kind_idx,
            ) by {
                lemma_keys_distinct_kinds(
                    st as int,
                    dt as int,
                    c,
                    d,
                    k2,
                    c1,
                    d1,
                    kind_idx,
                    labels as int,
                );
            }
            assert(!spec_is_kind_key(st, dt, labels, kind_idx, key2));
            lemma_encode_le_maximal(
                st as int,
                dt as int,
                c,
                d,
                k2,
                ExtendedGraphletType::spec_number_of_graphlets(),
                labels as int,
            );
        }
    }
}


/// The nodes forming a triangle with the edge: common neighbours of the
/// two endpoints.
pub open spec fn spec_triangle_nodes<G: Graph>(g: &G, src: usize, dst: usize) -> Seq<usize> {
    crate::neighbourhoods::spec_common_neighbours(g, src, dst)
}

/// The neighbours exclusive to the source endpoint.
pub open spec fn spec_src_exclusive<G: Graph>(g: &G, src: usize, dst: usize) -> Seq<usize> {
    crate::neighbourhoods::spec_exclusive_neighbours(g, src, dst)
}

/// The neighbours exclusive to the destination endpoint.
pub open spec fn spec_dst_exclusive<G: Graph>(g: &G, src: usize, dst: usize) -> Seq<usize> {
    crate::neighbourhoods::spec_exclusive_neighbours(g, dst, src)
}

/// How many triangles on the edge have a third node of label `t`.
pub open spec fn spec_triangle_count<G: TypedGraph>(g: &G, src: usize, dst: usize, t: int) -> nat {
    spec_count_with_label(g, spec_triangle_nodes(g, src, dst), t as usize)
}

/// How many exclusive neighbours of the source carry label `t`.
pub open spec fn spec_src_exclusive_count<G: TypedGraph>(
    g: &G,
    src: usize,
    dst: usize,
    t: int,
) -> nat {
    spec_count_with_label(g, spec_src_exclusive(g, src, dst), t as usize)
}

/// How many exclusive neighbours of the destination carry label `t`.
pub open spec fn spec_dst_exclusive_count<G: TypedGraph>(
    g: &G,
    src: usize,
    dst: usize,
    t: int,
) -> nat {
    spec_count_with_label(g, spec_dst_exclusive(g, src, dst), t as usize)
}

/// How many triads (open three-node paths) the edge roots with a third
/// node of label `t`, on either side.
pub open spec fn spec_triad_count<G: TypedGraph>(g: &G, src: usize, dst: usize, t: int) -> nat {
    spec_src_exclusive_count(g, src, dst, t) + spec_dst_exclusive_count(g, src, dst, t)
}

/// Four-cliques recorded at key digits `(c, d)`: the triangle node carries
/// label `c` and the fourth node label `d`.
pub open spec fn spec_four_clique_count<G: TypedGraph>(
    g: &G,
    src: usize,
    dst: usize,
    c: int,
    d: int,
) -> nat {
    pair_count(
        g,
        spec_triangle_nodes(g, src, dst),
        four_clique_fam(g, src, dst),
        c as usize,
        d as usize,
    )
}

/// Chordal-cycle edge orbits recorded at key digits `(c, d)`: the triangle
/// node carries label `c` and the pendant node label `d`.
pub open spec fn spec_chordal_cycle_edge_count<G: TypedGraph>(
    g: &G,
    src: usize,
    dst: usize,
    c: int,
    d: int,
) -> nat {
    pair_count(
        g,
        spec_triangle_nodes(g, src, dst),
        chordal_cycle_edge_fam(g, src, dst),
        c as usize,
        d as usize,
    )
}

/// Tailed-triangle center orbits recorded at key digits `(c, d)`: the
/// triangle node carries label `c` and the tail node label `d`.
pub open spec fn spec_tailed_tri_center_count<G: TypedGraph>(
    g: &G,
    src: usize,
    dst: usize,
    c: int,
    d: int,
) -> nat {
    pair_count(
        g,
        spec_triangle_nodes(g, src, dst),
        detached_fam(g, src, dst),
        c as usize,
        d as usize,
    )
}

/// Four-path edge orbits recorded at key digits `(c, d)`: the far node
/// carries label `c` and the exclusive neighbour rooting the path label
/// `d`, counted from both endpoints.
pub open spec fn spec_four_path_edge_count<G: TypedGraph>(
    g: &G,
    src: usize,
    dst: usize,
    c: int,
    d: int,
) -> nat {
    pair_count(g, spec_src_exclusive(g, src, dst), detached_fam(g, src, dst), d as usize, c as usize)
        + pair_count(
        g,
        spec_dst_exclusive(g, src, dst),
        detached_fam(g, src, dst),
        d as usize,
        c as usize,
    )
}

/// Tailed-triangle tail orbits recorded at key digits `(c, d)`: the tail
/// node carries label `c` and the triangle node rooting it label `d`,
/// counted from both endpoints.
pub open spec fn spec_tailed_tri_tail_count<G: TypedGraph>(
    g: &G,
    src: usize,
    dst: usize,
    c: int,
    d: int,
) -> nat {
    pair_count(
        g,
        spec_src_exclusive(g, src, dst),
        tailed_tri_tail_fam(g, src, dst, src, dst),
        d as usize,
        c as usize,
    ) + pair_count(
        g,
        spec_dst_exclusive(g, src, dst),
        tailed_tri_tail_fam(g, src, dst, dst, src),
        d as usize,
        c as usize,
    )
}

/// Four-cycles recorded at key digits `(c, d)`: the node adjacent solely
/// to the source carries label `c` and the destination-exclusive root
/// label `d`.
pub open spec fn spec_four_cycle_count<G: TypedGraph>(
    g: &G,
    src: usize,
    dst: usize,
    c: int,
    d: int,
) -> nat {
    pair_count(
        g,
        spec_dst_exclusive(g, src, dst),
        four_cycle_fam(g, src, dst, true),
        d as usize,
        c as usize,
    )
}

/// The value the classifier stores for four-path center orbits at key
/// digits `(row, col)` with `row <= col`.
pub open spec fn spec_four_path_center_value<G: TypedGraph>(
    g: &G,
    src: usize,
    dst: usize,
    row: int,
    col: int,
) -> usize {
    let fc = sat_nat(spec_four_cycle_count(g, src, dst, row, col)) as int;
    let s_row = spec_src_exclusive_count(g, src, dst, row) as int;
    let d_row = spec_dst_exclusive_count(g, src, dst, row) as int;
    let s_col = spec_src_exclusive_count(g, src, dst, col) as int;
    let d_col = spec_dst_exclusive_count(g, src, dst, col) as int;
    if row == col {
        sat_cap(crate::orbits::spec_four_path_center_homo(fc, s_row, d_row))
    } else {
        sat_cap(crate::orbits::spec_four_path_center_hetero(fc, s_row, d_row, s_col, d_col))
    }
}

/// The value the classifier stores for four-star orbits at key digits
/// `(row, col)` with `row <= col`.
pub open spec fn spec_four_star_value<G: TypedGraph>(
    g: &G,
    src: usize,
    dst: usize,
    row: int,
    col: int,
) -> usize {
    let tt = sat_nat(spec_tailed_tri_tail_count(g, src, dst, row, col)) as int;
    let s_row = spec_src_exclusive_count(g, src, dst, row) as int;
    let d_row = spec_dst_exclusive_count(g, src, dst, row) as int;
    let s_col = spec_src_exclusive_count(g, src, dst, col) as int;
    let d_col = spec_dst_exclusive_count(g, src, dst, col) as int;
    if row == col {
        sat_cap(crate::orbits::spec_four_star_homo(tt, s_row, d_row))
    } else {
        sat_cap(crate::orbits::spec_four_star_hetero(tt, s_row, d_row, s_col, d_col))
    }
}

/// The value the classifier stores for tailed-triangle tri-edge orbits at
/// key digits `(row, col)` with `row <= col`.
pub open spec fn spec_tailed_tri_edge_value<G: TypedGraph>(
    g: &G,
    src: usize,
    dst: usize,
    row: int,
    col: int,
) -> usize {
    let ce = sat_nat(spec_chordal_cycle_edge_count(g, src, dst, row, col)) as int;
    let tri_row = spec_triangle_count(g, src, dst, row) as int;
    let tri_col = spec_triangle_count(g, src, dst, col) as int;
    let s_row = spec_src_exclusive_count(g, src, dst, row) as int;
    let d_row = spec_dst_exclusive_count(g, src, dst, row) as int;
    let s_col = spec_src_exclusive_count(g, src, dst, col) as int;
    let d_col = spec_dst_exclusive_count(g, src, dst, col) as int;
    if row == col {
        sat_cap(crate::orbits::spec_tailed_tri_edge_homo(ce, tri_row, s_row, d_row))
    } else {
        sat_cap(
            crate::orbits::spec_tailed_tri_edge_hetero(
                ce,
                tri_row,
                tri_col,
                s_row,
                d_row,
                s_col,
                d_col,
            ),
        )
    }
}

/// The value the classifier stores for chordal-cycle center orbits at key
/// digits `(row, col)` with `row <= col`.
pub open spec fn spec_chordal_cycle_center_value<G: TypedGraph>(
    g: &G,
    src: usize,
    dst: usize,
    row: int,
    col: int,
) -> usize {
    let fq = sat_nat(spec_four_clique_count(g, src, dst, row, col)) as int;
    let tri_row = spec_triangle_count(g, src, dst, row) as int;
    let tri_col = spec_triangle_count(g, src, dst, col) as int;
    if row == col {
        sat_cap(crate::orbits::spec_chordal_cycle_center_homo(fq, tri_row))
    } else {
        sat_cap(crate::orbits::spec_chordal_cycle_center_hetero(fq, tri_row, tri_col))
    }
}

/// Writes slot `(c, d)`.
fn matrix_set(mat: &mut Vec<usize>, c: usize, d: usize, labels: usize, value: usize)
    requires
        labels >= 1,
        labels * labels <= usize::MAX,
        old(mat)@.len() == labels * labels,
        c < labels,
        d < labels,
    ensures
        final(mat)@.len() == old(mat)@.len(),
        mat_at(final(mat)@, labels, c as int, d as int) == value,
        forall|c2: int, d2: int|
            0 <= c2 < labels && 0 <= d2 < labels && (c2, d2) != (c as int, d as int)
                ==> #[trigger] mat_at(final(mat)@, labels, c2, d2) == mat_at(
                old(mat)@,
                labels,
                c2,
                d2,
            ),
{
    proof {
        lemma_matrix_index(c as int, d as int, c as int, d as int, labels as int);
    }
    let idx = c * labels + d;
    mat.set(idx, value);
    proof {
        assert forall|c2: int, d2: int|
            0 <= c2 < labels && 0 <= d2 < labels && (c2, d2) != (c as int, d as int)
            implies #[trigger] mat_at(final(mat)@, labels, c2, d2) == mat_at(
            old(mat)@,
            labels,
            c2,
            d2,
        ) by {
            lemma_matrix_index(c2, d2, c as int, d as int, labels as int);
        }
    }
}

/// Transposes a label-pair matrix.
fn matrix_transpose(mat: &Vec<usize>, labels: usize) -> (r: Vec<usize>)
    requires
        labels >= 1,
        labels * labels <= usize::MAX,
        mat@.len() == labels * labels,
    ensures
        r@.len() == labels * labels,
        forall|c: int, d: int|
            0 <= c < labels && 0 <= d < labels ==> #[trigger] mat_at(r@, labels, c, d) == mat_at(
                mat@,
                labels,
                d,
                c,
            ),
{
    let mut r = zero_matrix(labels);
    let mut c: usize = 0;
    while c < labels
        invariant
            labels >= 1,
            labels * labels <= usize::MAX,
            mat@.len() == labels * labels,
            r@.len() == labels * labels,
            c <= labels,
            forall|c1: int, d1: int|
                0 <= c1 < labels && 0 <= d1 < labels && c1 < c ==> #[trigger] mat_at(
                    r@,
                    labels,
                    c1,
                    d1,
                ) == mat_at(mat@, labels, d1, c1),
        decreases labels - c,
    {
        let mut d: usize = 0;
        while d < labels
            invariant
                labels >= 1,
                labels * labels <= usize::MAX,
                mat@.len() == labels * labels,
                r@.len() == labels * labels,
                c < labels,
                d <= labels,
                forall|c1: int, d1: int|
                    0 <= c1 < labels && 0 <= d1 < labels && (c1 < c || (c1 == c && d1 < d))
                        ==> #[trigger] mat_at(r@, labels, c1, d1) == mat_at(mat@, labels, d1, c1),
            decreases labels - d,
        {
            let v = matrix_get(mat, d, c, labels);
            matrix_set(&mut r, c, d, labels, v);
            d = d + 1;
        }
        c = c + 1;
    }
    r
}

/// Slot-wise saturating sum of two per-label tally vectors.
fn tally_add(a: &Vec<usize>, b: &Vec<usize>) -> (r: Vec<usize>)
    requires
        a@.len() == b@.len(),
    ensures
        r@.len() == a@.len(),
        forall|t: int| 0 <= t < a@.len() ==> r@[t] == sat_cap(a@[t] + b@[t]),
{
    let mut r: Vec<usize> = Vec::new();
    let mut k: usize = 0;
    while k < a.len()
        invariant
            k <= a@.len(),
            b@.len() == a@.len(),
            r@.len() == k,
            forall|i: int| 0 <= i < k ==> r@[i] == sat_cap(a@[i] + b@[i]),
        decreases a@.len() - k,
    {
        r.push(a[k].saturating_add(b[k]));
        k = k + 1;
    }
    r
}

/// Derives the four orbit-count matrices that the merge scan cannot
/// observe directly, one upper-triangular pass over the label pairs.
fn derive_orbit_matrices<G: TypedGraph>(
    g: &G,
    src: usize,
    dst: usize,
    tri_tally: &Vec<usize>,
    s_tally: &Vec<usize>,
    d_tally: &Vec<usize>,
    four_clique: &Vec<usize>,
    chordal_edge: &Vec<usize>,
    tri_tail: &Vec<usize>,
    four_cycle: &Vec<usize>,
    labels: usize,
) -> (r: (Vec<usize>, Vec<usize>, Vec<usize>, Vec<usize>))
    requires
        typed_graph_wf(g),
        src < g.spec_node_count(),
        dst < g.spec_node_count(),
        labels == g.spec_label_count(),
        labels * labels <= usize::MAX,
        tri_tally@.len() == labels,
        s_tally@.len() == labels,
        d_tally@.len() == labels,
        forall|t: int| 0 <= t < labels ==> tri_tally@[t] == spec_triangle_count(g, src, dst, t),
        forall|t: int|
            0 <= t < labels ==> s_tally@[t] == spec_src_exclusive_count(g, src, dst, t),
        forall|t: int|
            0 <= t < labels ==> d_tally@[t] == spec_dst_exclusive_count(g, src, dst, t),
        four_clique@.len() == labels * labels,
        chordal_edge@.len() == labels * labels,
        tri_tail@.len() == labels * labels,
        four_cycle@.len() == labels * labels,
        forall|c: int, d: int|
            0 <= c < labels && 0 <= d < labels ==> #[trigger] mat_at(four_clique@, labels, c, d)
                == sat_nat(spec_four_clique_count(g, src, dst, c, d)),
        forall|c: int, d: int|
            0 <= c < labels && 0 <= d < labels ==> #[trigger] mat_at(chordal_edge@, labels, c, d)
                == sat_nat(spec_chordal_cycle_edge_count(g, src, dst, c, d)),
        forall|c: int, d: int|
            0 <= c < labels && 0 <= d < labels ==> #[trigger] mat_at(tri_tail@, labels, c, d)
                == sat_nat(spec_tailed_tri_tail_count(g, src, dst, c, d)),
        forall|c: int, d: int|
            0 <= c < labels && 0 <= d < labels ==> #[trigger] mat_at(four_cycle@, labels, c, d)
                == sat_nat(spec_four_cycle_count(g, src, dst, c, d)),
    ensures
        r.0@.len() == labels * labels,
        r.1@.len() == labels * labels,
        r.2@.len() == labels * labels,
        r.3@.len() == labels * labels,
        forall|c: int, d: int|
            0 <= c < labels && 0 <= d < labels ==> #[trigger] mat_at(r.0@, labels, c, d) == if c
                <= d {
                spec_four_path_center_value(g, src, dst, c, d)
            } else {
                0
            },
        forall|c: int, d: int|
            0 <= c < labels && 0 <= d < labels ==> #[trigger] mat_at(r.1@, labels, c, d) == if c
                <= d {
                spec_four_star_value(g, src, dst, c, d)
            } else {
                0
            },
        forall|c: int, d: int|
            0 <= c < labels && 0 <= d < labels ==> #[trigger] mat_at(r.2@, labels, c, d) == if c
                <= d {
                spec_tailed_tri_edge_value(g, src, dst, c, d)
            } else {
                0
            },
        forall|c: int, d: int|
            0 <= c < labels && 0 <= d < labels ==> #[trigger] mat_at(r.3@, labels, c, d) == if c
                <= d {
                spec_chordal_cycle_center_value(g, src, dst, c, d)
            } else {
                0
            },
{
    let mut path_center = zero_matrix(labels);
    let mut four_star = zero_matrix(labels);
    let mut tri_edge = zero_matrix(labels);
    let mut cycle_center = zero_matrix(labels);
    let mut row: usize = 0;
    while row < labels
        invariant
            typed_graph_wf(g),
            src < g.spec_node_count(),
            dst < g.spec_node_count(),
            labels == g.spec_label_count(),
            labels * labels <= usize::MAX,
            tri_tally@.len() == labels,
            s_tally@.len() == labels,
            d_tally@.len() == labels,
            forall|t: int| 0 <= t < labels ==> tri_tally@[t] == spec_triangle_count(g, src, dst, t),
            forall|t: int|
                0 <= t < labels ==> s_tally@[t] == spec_src_exclusive_count(g, src, dst, t),
            forall|t: int|
                0 <= t < labels ==> d_tally@[t] == spec_dst_exclusive_count(g, src, dst, t),
            four_clique@.len() == labels * labels,
            chordal_edge@.len() == labels * labels,
            tri_tail@.len() == labels * labels,
            four_cycle@.len() == labels * labels,
            forall|c: int, d: int|
                0 <= c < labels && 0 <= d < labels ==> #[trigger] mat_at(four_clique@, labels, c, d)
                    == sat_nat(spec_four_clique_count(g, src, dst, c, d)),
            forall|c: int, d: int|
                0 <= c < labels && 0 <= d < labels ==> #[trigger] mat_at(
                    chordal_edge@,
                    labels,
                    c,
                    d,
                ) == sat_nat(spec_chordal_cycle_edge_count(g, src, dst, c, d)),
            forall|c: int, d: int|
                0 <= c < labels && 0 <= d < labels ==> #[trigger] mat_at(tri_tail@, labels, c, d)
                    == sat_nat(spec_tailed_tri_tail_count(g, src, dst, c, d)),
            forall|c: int, d: int|
                0 <= c < labels && 0 <= d < labels ==> #[trigger] mat_at(four_cycle@, labels, c, d)
                    == sat_nat(spec_four_cycle_count(g, src, dst, c, d)),
            path_center@.len() == labels * labels,
            four_star@.len() == labels * labels,
            tri_edge@.len() == labels * labels,
            cycle_center@.len() == labels * labels,
            row <= labels,
            forall|c: int, d: int|
                0 <= c < labels && 0 <= d < labels ==> #[trigger] mat_at(
                    path_center@,
                    labels,
                    c,
                    d,
                ) == if c <= d && c < row {
                    spec_four_path_center_value(g, src, dst, c, d)
                } else {
                    0
                },
            forall|c: int, d: int|
                0 <= c < labels && 0 <= d < labels ==> #[trigger] mat_at(four_star@, labels, c, d)
                    == if c <= d && c < row {
                    spec_four_star_value(g, src, dst, c, d)
                } else {
                    0
                },
            forall|c: int, d: int|
                0 <= c < labels && 0 <= d < labels ==> #[trigger] mat_at(tri_edge@, labels, c, d)
                    == if c <= d && c < row {
                    spec_tailed_tri_edge_value(g, src, dst, c, d)
                } else {
                    0
                },
            forall|c: int, d: int|
                0 <= c < labels && 0 <= d < labels ==> #[trigger] mat_at(
                    cycle_center@,
                    labels,
                    c,
                    d,
                ) == if c <= d && c < row {
                    spec_chordal_cycle_center_value(g, src, dst, c, d)
                } else {
                    0
                },
        decreases labels - row,
    {
        let tri_row = tri_tally[row];
        let s_row = s_tally[row];
        let d_row = d_tally[row];
        let mut col: usize = row;
        while col < labels
            invariant
                typed_graph_wf(g),
                src < g.spec_node_count(),
                dst < g.spec_node_count(),
                labels == g.spec_label_count(),
                labels * labels <= usize::MAX,
                tri_tally@.len() == labels,
                s_tally@.len() == labels,
                d_tally@.len() == labels,
                forall|t: int|
                    0 <= t < labels ==> tri_tally@[t] == spec_triangle_count(g, src, dst, t),
                forall|t: int|
                    0 <= t < labels ==> s_tally@[t] == spec_src_exclusive_count(g, src, dst, t),
                forall|t: int|
                    0 <= t < labels ==> d_tally@[t] == spec_dst_exclusive_count(g, src, dst, t),
                four_clique@.len() == labels * labels,
                chordal_edge@.len() == labels * labels,
                tri_tail@.len() == labels * labels,
                four_cycle@.len() == labels * labels,
                forall|c: int, d: int|
                    0 <= c < labels && 0 <= d < labels ==> #[trigger] mat_at(
                        four_clique@,
                        labels,
                        c,
                        d,
                    ) == sat_nat(spec_four_clique_count(g, src, dst, c, d)),
                forall|c: int, d: int|
                    0 <= c < labels && 0 <= d < labels ==> #[trigger] mat_at(
                        chordal_edge@,
                        labels,
                        c,
                        d,
                    ) == sat_nat(spec_chordal_cycle_edge_count(g, src, dst, c, d)),
                forall|c: int, d: int|
                    0 <= c < labels && 0 <= d < labels ==> #[trigger] mat_at(
                        tri_tail@,
                        labels,
                        c,
                        d,
                    ) == sat_nat(spec_tailed_tri_tail_count(g, src, dst, c, d)),
                forall|c: int, d: int|
                    0 <= c < labels && 0 <= d < labels ==> #[trigger] mat_at(
                        four_cycle@,
                        labels,
                        c,
                        d,
                    ) == sat_nat(spec_four_cycle_count(g, src, dst, c, d)),
                path_center@.len() == labels * labels,
                four_star@.len() == labels * labels,
                tri_edge@.len() == labels * labels,
                cycle_center@.len() == labels * labels,
                row < labels,
                row <= col <= labels,
                tri_row == spec_triangle_count(g, src, dst, row as int),
                s_row == spec_src_exclusive_count(g, src, dst, row as int),
                d_row == spec_dst_exclusive_count(g, src, dst, row as int),
                forall|c: int, d: int|
                    0 <= c < labels && 0 <= d < labels ==> #[trigger] mat_at(
                        path_center@,
                        labels,
                        c,
                        d,
                    ) == if c <= d && (c < row || (c == row && d < col)) {
                        spec_four_path_center_value(g, src, dst, c, d)
                    } else {
                        0
                    },
                forall|c: int, d: int|
                    0 <= c < labels && 0 <= d < labels ==> #[trigger] mat_at(
                        four_star@,
                        labels,
                        c,
                        d,
                    ) == if c <= d && (c < row || (c == row && d < col)) {
                        spec_four_star_value(g, src, dst, c, d)
                    } else {
                        0
                    },
                forall|c: int, d: int|
                    0 <= c < labels && 0 <= d < labels ==> #[trigger] mat_at(
                        tri_edge@,
                        labels,
                        c,
                        d,
                    ) == if c <= d && (c < row || (c == row && d < col)) {
                        spec_tailed_tri_edge_value(g, src, dst, c, d)
                    } else {
                        0
                    },
                forall|c: int, d: int|
                    0 <= c < labels && 0 <= d < labels ==> #[trigger] mat_at(
                        cycle_center@,
                        labels,
                        c,
                        d,
                    ) == if c <= d && (c < row || (c == row && d < col)) {
                        spec_chordal_cycle_center_value(g, src, dst, c, d)
                    } else {
                        0
                    },
            decreases labels - col,
        {
            let tri_col = tri_tally[col];
            let s_col = s_tally[col];
            let d_col = d_tally[col];
            let fc = matrix_get(four_cycle, row, col, labels);
            let ce = matrix_get(chordal_edge, row, col, labels);
            let tt = matrix_get(tri_tail, row, col, labels);
            let fq = matrix_get(four_clique, row, col, labels);
            let path_center_value: usize;
            let four_star_value: usize;
            let tri_edge_value: usize;
            let cycle_center_value: usize;
            if row == col {
                path_center_value = crate::orbits::get_homogeneously_typed_four_path_orbit_count(
                    fc,
                    s_row,
                    d_row,
                );
                four_star_value = crate::orbits::get_homogeneously_typed_four_star_orbit_count(
                    tt,
                    s_row,
                    d_row,
                );
                tri_edge_value =
                    crate::orbits::get_homogeneously_typed_tailed_triangle_tri_edge_orbit_count(
                    ce,
                    tri_row,
                    s_row,
                    d_row,
                );
                cycle_center_value =
                    crate::orbits::get_homogeneously_typed_chordal_cycle_center_orbit_count(
                    fq,
                    tri_row,
                );
            } else {
                path_center_value = crate::orbits::get_heterogeneously_typed_four_path_orbit_count(
                    fc,
                    s_row,
                    d_row,
                    s_col,
                    d_col,
                );
                four_star_value = crate::orbits::get_heterogeneously_typed_four_star_orbit_count(
                    tt,
                    s_row,
                    d_row,
                    s_col,
                    d_col,
                );
                tri_edge_value =
                    crate::orbits::get_heterogeneously_typed_tailed_triangle_tri_edge_orbit_count(
                    ce,
                    tri_row,
                    tri_col,
                    s_row,
                    d_row,
                    s_col,
                    d_col,
                );
                cycle_center_value =
                    crate::orbits::get_heterogeneously_typed_chordal_cycle_center_orbit_count(
                    fq,
                    tri_row,
                    tri_col,
                );
            }
            matrix_set(&mut path_center, row, col, labels, path_center_value);
            matrix_set(&mut four_star, row, col, labels, four_star_value);
            matrix_set(&mut tri_edge, row, col, labels, tri_edge_value);
            matrix_set(&mut cycle_center, row, col, labels, cycle_center_value);
            col = col + 1;
        }
        row = row + 1;
    }
    (path_center, four_star, tri_edge, cycle_center)
}



/// The full contract of a populated per-edge counter: every key of every
/// graphlet kind holds exactly the (saturation-clamped) count of that
/// kind's occurrences on the edge, broken down by the labels in the key's
/// two free digit slots, and the derived orbit keys hold the values of the
/// closed-form formulas.
pub open spec fn spec_classified_counts_ok<G: TypedGraph>(
    g: &G,
    src: usize,
    dst: usize,
    counts: Seq<usize>,
) -> bool {
    let st = g.spec_label(src as int);
    let dt = g.spec_label(dst as int);
    let l = g.spec_label_count() as usize;
    &&& counts.len() == spec_maximal_hash(
        ExtendedGraphletType::spec_number_of_graphlets(),
        l as int,
    ) + 1
    &&& forall|t: int|
        0 <= t < l ==> counts[#[trigger] spec_kind_key(
            st,
            dt,
            l,
            t,
            l as int,
            ExtendedGraphletType::Triad.spec_index(),
        )] == sat_nat(spec_triad_count(g, src, dst, t))
    &&& forall|t: int|
        0 <= t < l ==> counts[#[trigger] spec_kind_key(
            st,
            dt,
            l,
            t,
            l as int,
            ExtendedGraphletType::Triangle.spec_index(),
        )] == sat_nat(spec_triangle_count(g, src, dst, t))
    &&& forall|c: int, d: int|
        0 <= c < l && 0 <= d < l ==> counts[#[trigger] spec_kind_key(
            st,
            dt,
            l,
            c,
            d,
            ExtendedGraphletType::FourClique.spec_index(),
        )] == sat_nat(spec_four_clique_count(g, src, dst, c, d))
    &&& forall|c: int, d: int|
        0 <= c < l && 0 <= d < l ==> counts[#[trigger] spec_kind_key(
            st,
            dt,
            l,
            c,
            d,
            ExtendedGraphletType::ChordalCycleEdge.spec_index(),
        )] == sat_nat(spec_chordal_cycle_edge_count(g, src, dst, c, d))
    &&& forall|c: int, d: int|
        0 <= c < l && 0 <= d < l ==> counts[#[trigger] spec_kind_key(
            st,
            dt,
            l,
            c,
            d,
            ExtendedGraphletType::TailedTriCenter.spec_index(),
        )] == sat_nat(spec_tailed_tri_center_count(g, src, dst, c, d))
    &&& forall|c: int, d: int|
        0 <= c < l && 0 <= d < l ==> counts[#[trigger] spec_kind_key(
            st,
            dt,
            l,
            c,
            d,
            ExtendedGraphletType::FourPathEdge.spec_index(),
        )] == sat_nat(spec_four_path_edge_count(g, src, dst, c, d))
    &&& forall|c: int, d: int|
        0 <= c < l && 0 <= d < l ==> counts[#[trigger] spec_kind_key(
            st,
            dt,
            l,
            c,
            d,
            ExtendedGraphletType::TailedTriTail.spec_index(),
        )] == sat_nat(spec_tailed_tri_tail_count(g, src, dst, c, d))
    &&& forall|c: int, d: int|
        0 <= c < l && 0 <= d < l ==> counts[#[trigger] spec_kind_key(
            st,
            dt,
            l,
            c,
            d,
            ExtendedGraphletType::FourCycle.spec_index(),
        )] == sat_nat(spec_four_cycle_count(g, src, dst, c, d))
    &&& forall|c: int, d: int|
        0 <= c < l && 0 <= d < l ==> counts[#[trigger] spec_kind_key(
            st,
            dt,
            l,
            c,
            d,
            ExtendedGraphletType::FourPathCenter.spec_index(),
        )] == if c <= d {
            spec_four_path_center_value(g, src, dst, c, d)
        } else {
            0
        }
    &&& forall|c: int, d: int|
        0 <= c < l && 0 <= d < l ==> counts[#[trigger] spec_kind_key(
            st,
            dt,
            l,
            c,
            d,
            ExtendedGraphletType::FourStar.spec_index(),
        )] == if c <= d {
            spec_four_star_value(g, src, dst, c, d)
        } else {
            0
        }
    &&& forall|c: int, d: int|
        0 <= c < l && 0 <= d < l ==> counts[#[trigger] spec_kind_key(
            st,
            dt,
            l,
            c,
            d,
            ExtendedGraphletType::TailedTriEdge.spec_index(),
        )] == if c <= d {
            spec_tailed_tri_edge_value(g, src, dst, c, d)
        } else {
            0
        }
    &&& forall|c: int, d: int|
        0 <= c < l && 0 <= d < l ==> counts[#[trigger] spec_kind_key(
            st,
            dt,
            l,
            c,
            d,
            ExtendedGraphletType::ChordalCycleCenter.spec_index(),
        )] == if c <= d {
            spec_chordal_cycle_center_value(g, src, dst, c, d)
        } else {
            0
        }
    &&& forall|k: int|
        0 <= k < counts.len() && (forall|ki: int|
            0 <= ki < ExtendedGraphletType::spec_number_of_graphlets() ==> !spec_is_kind_key(
                st,
                dt,
                l,
                ki,
                k,
            )) ==> counts[k] == 0
}

/// Classifies every graphlet the edge `(src, dst)` participates in and
/// returns the populated counter.
#[verifier::rlimit(60)]
pub fn heterogeneous_graphlet_counter<G: TypedGraph>(g: &G, src: usize, dst: usize) -> (r:
    DenseGraphletCounter)
    requires
        typed_graph_wf(g),
        src < g.spec_node_count(),
        dst < g.spec_node_count(),
        src != dst,
        spec_maximal_hash(
            ExtendedGraphletType::spec_number_of_graphlets(),
            g.spec_label_count() as int,
        ) < usize::MAX,
    ensures
        r.wf(),
        r.spec_number_of_elements() == g.spec_label_count(),
        spec_classified_counts_ok(g, src, dst, r.spec_counts()),
{
    let labels = g.get_number_of_node_labels();
    let st = g.get_node_label(src);
    let dt = g.get_node_label(dst);
    proof {
        crate::perfect_graphlet_hash::lemma_powers_le_maximal(
            ExtendedGraphletType::spec_number_of_graphlets(),
            labels as int,
        );
    }
    let tri = crate::neighbourhoods::common_neighbours(g, src, dst);
    let s_ex = crate::neighbourhoods::exclusive_neighbours(g, src, dst);
    let d_ex = crate::neighbourhoods::exclusive_neighbours(g, dst, src);
    proof {
        lemma_filtered_nodes_bounded(g, src, common_pred(g, src, dst));
        lemma_filtered_nodes_bounded(g, src, exclusive_pred(g, src, dst));
        lemma_filtered_nodes_bounded(g, dst, exclusive_pred(g, dst, src));
    }
    let tri_tally = crate::neighbourhoods::label_tally(g, &tri, labels);
    let s_tally = crate::neighbourhoods::label_tally(g, &s_ex, labels);
    let d_tally = crate::neighbourhoods::label_tally(g, &d_ex, labels);
    let triad_vals = tally_add(&s_tally, &d_tally);
    let (four_clique, chordal_edge, tri_center) = scan_triangle_rooted(g, src, dst, &tri, labels);
    let src_rooted = scan_path_rooted(g, src, dst, &s_ex, labels, false);
    let dst_rooted = scan_path_rooted(g, src, dst, &d_ex, labels, true);
    let path_edge_rooted = matrix_add(&src_rooted.0, &dst_rooted.0, labels);
    let tri_tail_rooted = matrix_add(&src_rooted.1, &dst_rooted.1, labels);
    let path_edge = matrix_transpose(&path_edge_rooted, labels);
    let tri_tail = matrix_transpose(&tri_tail_rooted, labels);
    let four_cycle = matrix_transpose(&dst_rooted.2, labels);
    proof {
        assert forall|c: int, d: int|
            0 <= c < labels && 0 <= d < labels implies #[trigger] mat_at(path_edge@, labels, c, d)
            == sat_nat(spec_four_path_edge_count(g, src, dst, c, d)) by {
            lemma_sat_cap_add_both(
                pair_count(
                    g,
                    spec_src_exclusive(g, src, dst),
                    detached_fam(g, src, dst),
                    d as usize,
                    c as usize,
                ) as int,
                pair_count(
                    g,
                    spec_dst_exclusive(g, src, dst),
                    detached_fam(g, src, dst),
                    d as usize,
                    c as usize,
                ) as int,
            );
        }
        assert forall|c: int, d: int|
            0 <= c < labels && 0 <= d < labels implies #[trigger] mat_at(tri_tail@, labels, c, d)
            == sat_nat(spec_tailed_tri_tail_count(g, src, dst, c, d)) by {
            lemma_sat_cap_add_both(
                pair_count(
                    g,
                    spec_src_exclusive(g, src, dst),
                    tailed_tri_tail_fam(g, src, dst, src, dst),
                    d as usize,
                    c as usize,
                ) as int,
                pair_count(
                    g,
                    spec_dst_exclusive(g, src, dst),
                    tailed_tri_tail_fam(g, src, dst, dst, src),
                    d as usize,
                    c as usize,
                ) as int,
            );
        }
    }
    let derived = derive_orbit_matrices(
        g,
        src,
        dst,
        &tri_tally,
        &s_tally,
        &d_tally,
        &four_clique,
        &chordal_edge,
        &tri_tail,
        &four_cycle,
        labels,
    );
    let mut counter = DenseGraphletCounter::with_number_of_elements(labels);
    insert_labelled_counts(&mut counter, st, dt, labels, ExtendedGraphletType::Triad, &triad_vals);
    insert_labelled_counts(&mut counter, st, dt, labels, ExtendedGraphletType::Triangle, &tri_tally);
    insert_matrix(&mut counter, st, dt, labels, ExtendedGraphletType::FourClique, &four_clique);
    insert_matrix(&mut counter, st, dt, labels, ExtendedGraphletType::ChordalCycleEdge, &chordal_edge);
    insert_matrix(&mut counter, st, dt, labels, ExtendedGraphletType::TailedTriCenter, &tri_center);
    insert_matrix(&mut counter, st, dt, labels, ExtendedGraphletType::FourPathEdge, &path_edge);
    insert_matrix(&mut counter, st, dt, labels, ExtendedGraphletType::TailedTriTail, &tri_tail);
    insert_matrix(&mut counter, st, dt, labels, ExtendedGraphletType::FourCycle, &four_cycle);
    insert_matrix(&mut counter, st, dt, labels, ExtendedGraphletType::FourPathCenter, &derived.0);
    insert_matrix(&mut counter, st, dt, labels, ExtendedGraphletType::FourStar, &derived.1);
    insert_matrix(&mut counter, st, dt, labels, ExtendedGraphletType::TailedTriEdge, &derived.2);
    insert_matrix(&mut counter, st, dt, labels, ExtendedGraphletType::ChordalCycleCenter, &derived.3);
    proof {
        assert forall|t: int|
            0 <= t < labels implies counter.spec_counts()[#[trigger] spec_kind_key(
            st,
            dt,
            labels,
            t,
            labels as int,
            ExtendedGraphletType::Triad.spec_index(),
        )] == sat_nat(spec_triad_count(g, src, dst, t)) by {
            lemma_encode_le_maximal(
                st as int,
                dt as int,
                t,
                labels as int,
                ExtendedGraphletType::Triad.spec_index(),
                ExtendedGraphletType::spec_number_of_graphlets(),
                labels as int,
            );
            lemma_sat_cap_add(
                spec_src_exclusive_count(g, src, dst, t) as int,
                spec_dst_exclusive_count(g, src, dst, t) as int,
            );
        }
        assert forall|t: int|
            0 <= t < labels implies counter.spec_counts()[#[trigger] spec_kind_key(
            st,
            dt,
            labels,
            t,
            labels as int,
            ExtendedGraphletType::Triangle.spec_index(),
        )] == sat_nat(spec_triangle_count(g, src, dst, t)) by {
            lemma_encode_le_maximal(
                st as int,
                dt as int,
                t,
                labels as int,
                ExtendedGraphletType::Triangle.spec_index(),
                ExtendedGraphletType::spec_number_of_graphlets(),
                labels as int,
            );
        }
        assert forall|c: int, d: int|
            0 <= c < labels && 0 <= d < labels implies counter.spec_counts()[
        #[trigger] spec_kind_key(
            st,
            dt,
            labels,
            c,
            d,
            ExtendedGraphletType::FourClique.spec_index(),
        )] == sat_nat(spec_four_clique_count(g, src, dst, c, d)) by {
            lemma_encode_le_maximal(
                st as int,
                dt as int,
                c,
                d,
                ExtendedGraphletType::FourClique.spec_index(),
                ExtendedGraphletType::spec_number_of_graphlets(),
                labels as int,
            );
        }
        assert forall|c: int, d: int|
            0 <= c < labels && 0 <= d < labels implies counter.spec_counts()[
        #[trigger] spec_kind_key(
            st,
            dt,
            labels,
            c,
            d,
            ExtendedGraphletType::ChordalCycleEdge.spec_index(),
        )] == sat_nat(spec_chordal_cycle_edge_count(g, src, dst, c, d)) by {
            lemma_encode_le_maximal(
                st as int,
                dt as int,
                c,
                d,
                ExtendedGraphletType::ChordalCycleEdge.spec_index(),
                ExtendedGraphletType::spec_number_of_graphlets(),
                labels as int,
            );
        }
        assert forall|c: int, d: int|
            0 <= c < labels && 0 <= d < labels implies counter.spec_counts()[
        #[trigger] spec_kind_key(
            st,
            dt,
            labels,
            c,
            d,
            ExtendedGraphletType::TailedTriCenter.spec_index(),
        )] == sat_nat(spec_tailed_tri_center_count(g, src, dst, c, d)) by {
            lemma_encode_le_maximal(
                st as int,
                dt as int,
                c,
                d,
                ExtendedGraphletType::TailedTriCenter.spec_index(),
                ExtendedGraphletType::spec_number_of_graphlets(),
                labels as int,
            );
        }
        assert forall|c: int, d: int|
            0 <= c < labels && 0 <= d < labels implies counter.spec_counts()[
        #[trigger] spec_kind_key(
            st,
            dt,
            labels,
            c,
            d,
            ExtendedGraphletType::FourPathEdge.spec_index(),
        )] == sat_nat(spec_four_path_edge_count(g, src, dst, c, d)) by {
            lemma_encode_le_maximal(
                st as int,
                dt as int,
                c,
                d,
                ExtendedGraphletType::FourPathEdge.spec_index(),
                ExtendedGraphletType::spec_number_of_graphlets(),
                labels as int,
            );
        }
        assert forall|c: int, d: int|
            0 <= c < labels && 0 <= d < labels implies counter.spec_counts()[
        #[trigger] spec_kind_key(
            st,
            dt,
            labels,
            c,
            d,
            ExtendedGraphletType::TailedTriTail.spec_index(),
        )] == sat_nat(spec_tailed_tri_tail_count(g, src, dst, c, d)) by {
            lemma_encode_le_maximal(
                st as int,
                dt as int,
                c,
                d,
                ExtendedGraphletType::TailedTriTail.spec_index(),
                ExtendedGraphletType::spec_number_of_graphlets(),
                labels as int,
            );
        }
        assert forall|c: int, d: int|
            0 <= c < labels && 0 <= d < labels implies counter.spec_counts()[
        #[trigger] spec_kind_key(
            st,
            dt,
            labels,
            c,
            d,
            ExtendedGraphletType::FourCycle.spec_index(),
        )] == sat_nat(spec_four_cycle_count(g, src, dst, c, d)) by {
            lemma_encode_le_maximal(
                st as int,
                dt as int,
                c,
                d,
                ExtendedGraphletType::FourCycle.spec_index(),
                ExtendedGraphletType::spec_number_of_graphlets(),
                labels as int,
            );
        }
        assert forall|c: int, d: int|
            0 <= c < labels && 0 <= d < labels implies counter.spec_counts()[
        #[trigger] spec_kind_key(
            st,
            dt,
            labels,
            c,
            d,
            ExtendedGraphletType::FourPathCenter.spec_index(),
        )] == (if c <= d {
            spec_four_path_center_value(g, src, dst, c, d)
        } else {
            0
        }) by {
            lemma_encode_le_maximal(
                st as int,
                dt as int,
                c,
                d,
                ExtendedGraphletType::FourPathCenter.spec_index(),
                ExtendedGraphletType::spec_number_of_graphlets(),
                labels as int,
            );
        }
        assert forall|c: int, d: int|
            0 <= c < labels && 0 <= d < labels implies counter.spec_counts()[
        #[trigger] spec_kind_key(
            st,
            dt,
            labels,
            c,
            d,
            ExtendedGraphletType::FourStar.spec_index(),
        )] == (if c <= d {
            spec_four_star_value(g, src, dst, c, d)
        } else {
            0
        }) by {
            lemma_encode_le_maximal(
                st as int,
                dt as int,
                c,
                d,
                ExtendedGraphletType::FourStar.spec_index(),
                ExtendedGraphletType::spec_number_of_graphlets(),
                labels as int,
            );
        }
        assert forall|c: int, d: int|
            0 <= c < labels && 0 <= d < labels implies counter.spec_counts()[
        #[trigger] spec_kind_key(
            st,
            dt,
            labels,
            c,
            d,
            ExtendedGraphletType::TailedTriEdge.spec_index(),
        )] == (if c <= d {
            spec_tailed_tri_edge_value(g, src, dst, c, d)
        } else {
            0
        }) by {
            lemma_encode_le_maximal(
                st as int,
                dt as int,
                c,
                d,
                ExtendedGraphletType::TailedTriEdge.spec_index(),
                ExtendedGraphletType::spec_number_of_graphlets(),
                labels as int,
            );
        }
        assert forall|c: int, d: int|
            0 <= c < labels && 0 <= d < labels implies counter.spec_counts()[
        #[trigger] spec_kind_key(
            st,
            dt,
            labels,
            c,
            d,
            ExtendedGraphletType::ChordalCycleCenter.spec_index(),
        )] == (if c <= d {
            spec_chordal_cycle_center_value(g, src, dst, c, d)
        } else {
            0
        }) by {
            lemma_encode_le_maximal(
                st as int,
                dt as int,
                c,
                d,
                ExtendedGraphletType::ChordalCycleCenter.spec_index(),
                ExtendedGraphletType::spec_number_of_graphlets(),
                labels as int,
            );
        }
        assert forall|k: int|
            0 <= k < counter.spec_counts().len() && (forall|ki: int|
                0 <= ki < ExtendedGraphletType::spec_number_of_graphlets() ==> !spec_is_kind_key(
                    st,
                    dt,
                    labels,
                    ki,
                    k,
                )) implies counter.spec_counts()[k] == 0 by {
            assert(!spec_is_kind_key(st, dt, labels, 0, k));
            assert(!spec_is_kind_key(st, dt, labels, 1, k));
            assert(!spec_is_kind_key(st, dt, labels, 2, k));
            assert(!spec_is_kind_key(st, dt, labels, 3, k));
            assert(!spec_is_kind_key(st, dt, labels, 4, k));
            assert(!spec_is_kind_key(st, dt, labels, 5, k));
            assert(!spec_is_kind_key(st, dt, labels, 6, k));
            assert(!spec_is_kind_key(st, dt, labels, 7, k));
            assert(!spec_is_kind_key(st, dt, labels, 8, k));
            assert(!spec_is_kind_key(st, dt, labels, 9, k));
            assert(!spec_is_kind_key(st, dt, labels, 10, k));
            assert(!spec_is_kind_key(st, dt, labels, 11, k));
        }
    }
    counter
}

/// A typed graph whose edges can be classified.
pub trait HeterogeneousGraphlets: TypedGraph {
    /// Returns the counter of the graphlets of the provided edge.
    fn get_heterogeneous_graphlet(&self, src: usize, dst: usize) -> (r: DenseGraphletCounter)
        requires
            typed_graph_wf(self),
            src < self.spec_node_count(),
            dst < self.spec_node_count(),
            src != dst,
            spec_maximal_hash(
                ExtendedGraphletType::spec_number_of_graphlets(),
                self.spec_label_count() as int,
            ) < usize::MAX,
        ensures
            r.wf(),
            r.spec_number_of_elements() == self.spec_label_count(),
            spec_classified_counts_ok(self, src, dst, r.spec_counts()),
    {
        heterogeneous_graphlet_counter(self, src, dst)
    }
}



/// Law: the classifier's tallies cross-check against brute-force set
/// operations on the same neighbour lists.  For every label, the recorded
/// triangle count is the size of the label-restricted intersection of the
/// two endpoints' neighbourhoods; the recorded triad count is the sum of
/// the two label-restricted subtractions; and on each endpoint the
/// triangles and the exclusive neighbours together account for every
/// neighbour of that label, the other endpoint excluded.
pub proof fn lemma_cross_check_against_brute_force<G: TypedGraph>(
    g: &G,
    src: usize,
    dst: usize,
    t: int,
    counts: Seq<usize>,
)
    requires
        typed_graph_wf(g),
        src < g.spec_node_count(),
        dst < g.spec_node_count(),
        g.spec_label_count() <= usize::MAX,
        0 <= t < g.spec_label_count(),
        spec_classified_counts_ok(g, src, dst, counts),
    ensures
        ({
            let st = g.spec_label(src as int);
            let dt = g.spec_label(dst as int);
            let l = g.spec_label_count() as usize;
            &&& counts[spec_kind_key(
                st,
                dt,
                l,
                t,
                l as int,
                ExtendedGraphletType::Triangle.spec_index(),
            )] == sat_nat(
                spec_count_with_label(g, spec_common_neighbours(g, src, dst), t as usize),
            )
            &&& counts[spec_kind_key(
                st,
                dt,
                l,
                t,
                l as int,
                ExtendedGraphletType::Triad.spec_index(),
            )] == sat_nat(
                spec_count_with_label(g, crate::neighbourhoods::spec_exclusive_neighbours(g, src, dst), t as usize)
                    + spec_count_with_label(g, crate::neighbourhoods::spec_exclusive_neighbours(g, dst, src), t as usize),
            )
            &&& spec_triangle_count(g, src, dst, t) + spec_src_exclusive_count(g, src, dst, t)
                == spec_count_with_label(
                g,
                g.spec_adjacency(src as int).filter(
                    crate::neighbourhoods::endpoint_free_pred(src, dst),
                ),
                t as usize,
            )
            &&& spec_triangle_count(g, src, dst, t) + spec_dst_exclusive_count(g, src, dst, t)
                == spec_count_with_label(
                g,
                g.spec_adjacency(dst as int).filter(
                    crate::neighbourhoods::endpoint_free_pred(dst, src),
                ),
                t as usize,
            )
        }),
{
    crate::neighbourhoods::lemma_label_neighbourhood_partition(g, src, dst, t as usize);
    crate::neighbourhoods::lemma_label_neighbourhood_partition(g, dst, src, t as usize);
    crate::neighbourhoods::lemma_common_neighbours_symmetric(g, dst, src);
}



/// Strictly ascending sequences have no duplicate members, so one whose
/// members all appear in another is no longer than it.
proof fn lemma_sorted_members_length(s1: Seq<usize>, s2: Seq<usize>)
    requires
        crate::graph::strictly_sorted(s1),
        crate::graph::strictly_sorted(s2),
        forall|x: usize| s1.contains(x) ==> s2.contains(x),
    ensures
        s1.len() <= s2.len(),
{
    assert(s1.no_duplicates()) by {
        assert forall|i: int, j: int|
            0 <= i < s1.len() && 0 <= j < s1.len() && i != j implies s1[i] != s1[j] by {
            if i < j {
                assert(s1[i] < s1[j]);
            } else {
                assert(s1[j] < s1[i]);
            }
        }
    }
    assert(s2.no_duplicates()) by {
        assert forall|i: int, j: int|
            0 <= i < s2.len() && 0 <= j < s2.len() && i != j implies s2[i] != s2[j] by {
            if i < j {
                assert(s2[i] < s2[j]);
            } else {
                assert(s2[j] < s2[i]);
            }
        }
    }
    s1.unique_seq_to_set();
    s2.unique_seq_to_set();
    assert(s1.to_set().subset_of(s2.to_set()));
    vstd::set_lib::lemma_len_subset(s1.to_set(), s2.to_set());
}

/// A root's contribution to a second-order count never exceeds the number
/// of label-`b` members of a target that the condition confines the
/// second-order neighbour to.
proof fn lemma_inner_count_bound<G: TypedGraph>(
    g: &G,
    root: usize,
    p: spec_fn(usize) -> bool,
    b: usize,
    target: Seq<usize>,
)
    requires
        crate::graph::strictly_sorted(g.spec_adjacency(root as int)),
        crate::graph::strictly_sorted(target),
        forall|m: usize| #[trigger] p(m) ==> target.contains(m),
    ensures
        spec_count_matching(g.spec_adjacency(root as int), and_label_pred(g, b, p))
            <= spec_count_with_label(g, target, b),
{
    let adj = g.spec_adjacency(root as int);
    let f = adj.filter(and_label_pred(g, b, p));
    let t = target.filter(crate::neighbourhoods::label_pred(g, b));
    crate::neighbourhoods::lemma_filter_sorted(adj, and_label_pred(g, b, p));
    crate::neighbourhoods::lemma_filter_sorted(target, crate::neighbourhoods::label_pred(g, b));
    assert forall|x: usize| f.contains(x) implies t.contains(x) by {
        crate::neighbourhoods::lemma_filter_membership(adj, and_label_pred(g, b, p), x);
        crate::neighbourhoods::lemma_filter_membership(
            target,
            crate::neighbourhoods::label_pred(g, b),
            x,
        );
    }
    lemma_sorted_members_length(f, t);
}

/// A second-order pair count is bounded by the product of its root tally
/// and the label tally of a target that the condition confines the
/// second-order neighbour to.
proof fn lemma_pair_count_bound<G: TypedGraph>(
    g: &G,
    roots: Seq<usize>,
    fam: spec_fn(usize) -> spec_fn(usize) -> bool,
    a: usize,
    b: usize,
    target: Seq<usize>,
)
    requires
        typed_graph_wf(g),
        forall|k: int| 0 <= k < roots.len() ==> (#[trigger] roots[k]) < g.spec_node_count(),
        crate::graph::strictly_sorted(target),
        forall|r: usize, m: usize| #[trigger] fam(r)(m) ==> target.contains(m),
    ensures
        pair_count(g, roots, fam, a, b) <= spec_count_with_label(g, roots, a)
            * spec_count_with_label(g, target, b),
    decreases roots.len(),
{
    reveal(Seq::filter);
    let k_bound = spec_count_with_label(g, target, b);
    if roots.len() == 0 {
        assert(spec_count_with_label(g, roots, b) >= 0);
        assert(spec_count_with_label(g, roots, a) * k_bound >= 0) by (nonlinear_arith)
            requires
                spec_count_with_label(g, roots, a) >= 0 && k_bound >= 0,
        ;
    } else {
        let pre = roots.drop_last();
        let last = roots.last();
        lemma_pair_count_bound(g, pre, fam, a, b, target);
        let w = pair_weight(g, fam, a, b);
        assert(spec_sum(roots, w) == spec_sum(pre, w) + w(last));
        let lp = crate::neighbourhoods::label_pred(g, a);
        assert(roots.filter(lp) == if lp(last) {
            pre.filter(lp).push(last)
        } else {
            pre.filter(lp)
        });
        let ca = spec_count_with_label(g, pre, a);
        if g.spec_label(last as int) == a {
            lemma_inner_count_bound(g, last, fam(last), b, target);
            assert(w(last) <= k_bound);
            assert(spec_count_with_label(g, roots, a) == ca + 1);
            assert((ca + 1) * k_bound == ca * k_bound + k_bound) by (nonlinear_arith);
        } else {
            assert(w(last) == 0);
            assert(spec_count_with_label(g, roots, a) == ca);
        }
    }
}

/// A second-order pair count splits along a disjoint split of its
/// condition.
proof fn lemma_pair_count_split<G: TypedGraph>(
    g: &G,
    roots: Seq<usize>,
    fam: spec_fn(usize) -> spec_fn(usize) -> bool,
    fam1: spec_fn(usize) -> spec_fn(usize) -> bool,
    fam2: spec_fn(usize) -> spec_fn(usize) -> bool,
    a: usize,
    b: usize,
)
    requires
        forall|r: usize, m: usize| #[trigger] fam1(r)(m) ==> fam(r)(m),
        forall|r: usize, m: usize| #[trigger] fam2(r)(m) ==> fam(r)(m),
        forall|r: usize, m: usize| #[trigger] fam(r)(m) ==> (fam1(r)(m) <==> !fam2(r)(m)),
    ensures
        pair_count(g, roots, fam, a, b) == pair_count(g, roots, fam1, a, b) + pair_count(
            g,
            roots,
            fam2,
            a,
            b,
        ),
    decreases roots.len(),
{
    if roots.len() > 0 {
        let pre = roots.drop_last();
        let last = roots.last();
        lemma_pair_count_split(g, pre, fam, fam1, fam2, a, b);
        if g.spec_label(last as int) == a {
            let adj = g.spec_adjacency(last as int);
            let q = crate::neighbourhoods::label_pred(g, b);
            crate::neighbourhoods::lemma_filter_partition(adj, fam(last), fam1(last), fam2(last), q);
            assert(adj.filter(fam(last)).filter(q).len() == adj.filter(fam1(last)).filter(q).len()
                + adj.filter(fam2(last)).filter(q).len());
            lemma_double_filter_is_label_inner(g, adj, fam(last), b);
            lemma_double_filter_is_label_inner(g, adj, fam1(last), b);
            lemma_double_filter_is_label_inner(g, adj, fam2(last), b);
        }
    }
}

/// Filtering by a condition and then by a label counts the same members
/// as filtering by the conjunction the scans use.
proof fn lemma_double_filter_is_label_inner<G: TypedGraph>(
    g: &G,
    s: Seq<usize>,
    p: spec_fn(usize) -> bool,
    b: usize,
)
    ensures
        s.filter(p).filter(crate::neighbourhoods::label_pred(g, b)).len() == spec_count_matching(
            s,
            and_label_pred(g, b, p),
        ),
    decreases s.len(),
{
    reveal(Seq::filter);
    if s.len() > 0 {
        let pre = s.drop_last();
        let last = s.last();
        lemma_double_filter_is_label_inner(g, pre, p, b);
        let q = crate::neighbourhoods::label_pred(g, b);
        assert(s.filter(p) == if p(last) {
            pre.filter(p).push(last)
        } else {
            pre.filter(p)
        });
        if p(last) {
            assert(pre.filter(p).push(last).filter(q) == if q(last) {
                pre.filter(p).filter(q).push(last)
            } else {
                pre.filter(p).filter(q)
            }) by {
                assert(pre.filter(p).push(last).drop_last() =~= pre.filter(p));
            }
        }
    }
}

/// The condition confining a second-order neighbour to the exclusive
/// neighbours of `rooted`, solely adjacent to it.
pub open spec fn solely_adjacent_fam<G: Graph>(
    g: &G,
    src: usize,
    dst: usize,
    rooted: usize,
    other: usize,
) -> spec_fn(usize) -> spec_fn(usize) -> bool {
    |root: usize|
        |m: usize|
            m != src && m != dst && is_neighbour(g, rooted, m) && !is_neighbour(g, other, m)
}

/// Law: the four-path center formula never goes negative — the four-cycle
/// count recorded at a label pair never exceeds the product of exclusive
/// tallies it is subtracted from.
pub proof fn lemma_four_path_center_nonnegative<G: TypedGraph>(
    g: &G,
    src: usize,
    dst: usize,
    row: int,
    col: int,
)
    requires
        typed_graph_wf(g),
        src < g.spec_node_count(),
        dst < g.spec_node_count(),
        0 <= row,
        0 <= col,
    ensures
        row == col ==> spec_four_cycle_count(g, src, dst, row, col) <= spec_src_exclusive_count(
            g,
            src,
            dst,
            row,
        ) * spec_dst_exclusive_count(g, src, dst, row),
        row != col ==> spec_four_cycle_count(g, src, dst, row, col) <= spec_src_exclusive_count(
            g,
            src,
            dst,
            row,
        ) * spec_dst_exclusive_count(g, src, dst, col) + spec_src_exclusive_count(g, src, dst, col)
            * spec_dst_exclusive_count(g, src, dst, row),
{
    let s_ex = spec_src_exclusive(g, src, dst);
    let d_ex = spec_dst_exclusive(g, src, dst);
    let fam = four_cycle_fam(g, src, dst, true);
    crate::neighbourhoods::lemma_filtered_nodes_bounded(g, dst, exclusive_pred(g, dst, src));
    crate::neighbourhoods::lemma_filter_sorted(
        g.spec_adjacency(src as int),
        exclusive_pred(g, src, dst),
    );
    assert forall|r: usize, m: usize| #[trigger] fam(r)(m) implies s_ex.contains(m) by {
        crate::neighbourhoods::lemma_filter_membership(
            g.spec_adjacency(src as int),
            exclusive_pred(g, src, dst),
            m,
        );
    }
    lemma_pair_count_bound(g, d_ex, fam, col as usize, row as usize, s_ex);
    let s_row = spec_src_exclusive_count(g, src, dst, row) as int;
    let d_row = spec_dst_exclusive_count(g, src, dst, row) as int;
    let s_col = spec_src_exclusive_count(g, src, dst, col) as int;
    let d_col = spec_dst_exclusive_count(g, src, dst, col) as int;
    assert(d_col * s_row == s_row * d_col) by (nonlinear_arith);
    if row != col {
        assert(s_col * d_row >= 0) by (nonlinear_arith)
            requires
                s_col >= 0 && d_row >= 0,
        ;
    }
}

/// Law: the heterogeneous four-star formula never goes negative — the
/// tailed-triangle tail count recorded at a pair of distinct labels never
/// exceeds the products of exclusive tallies it is subtracted from.
pub proof fn lemma_four_star_nonnegative_hetero<G: TypedGraph>(
    g: &G,
    src: usize,
    dst: usize,
    row: int,
    col: int,
)
    requires
        typed_graph_wf(g),
        src < g.spec_node_count(),
        dst < g.spec_node_count(),
        0 <= row,
        0 <= col,
    ensures
        spec_tailed_tri_tail_count(g, src, dst, row, col) <= spec_src_exclusive_count(
            g,
            src,
            dst,
            row,
        ) * spec_src_exclusive_count(g, src, dst, col) + spec_dst_exclusive_count(g, src, dst, col)
            * spec_dst_exclusive_count(g, src, dst, row),
{
    let s_ex = spec_src_exclusive(g, src, dst);
    let d_ex = spec_dst_exclusive(g, src, dst);
    let fam_s = tailed_tri_tail_fam(g, src, dst, src, dst);
    let fam_d = tailed_tri_tail_fam(g, src, dst, dst, src);
    crate::neighbourhoods::lemma_filtered_nodes_bounded(g, src, exclusive_pred(g, src, dst));
    crate::neighbourhoods::lemma_filtered_nodes_bounded(g, dst, exclusive_pred(g, dst, src));
    crate::neighbourhoods::lemma_filter_sorted(
        g.spec_adjacency(src as int),
        exclusive_pred(g, src, dst),
    );
    crate::neighbourhoods::lemma_filter_sorted(
        g.spec_adjacency(dst as int),
        exclusive_pred(g, dst, src),
    );
    assert forall|r: usize, m: usize| #[trigger] fam_s(r)(m) implies s_ex.contains(m) by {
        crate::neighbourhoods::lemma_filter_membership(
            g.spec_adjacency(src as int),
            exclusive_pred(g, src, dst),
            m,
        );
    }
    assert forall|r: usize, m: usize| #[trigger] fam_d(r)(m) implies d_ex.contains(m) by {
        crate::neighbourhoods::lemma_filter_membership(
            g.spec_adjacency(dst as int),
            exclusive_pred(g, dst, src),
            m,
        );
    }
    lemma_pair_count_bound(g, s_ex, fam_s, col as usize, row as usize, s_ex);
    lemma_pair_count_bound(g, d_ex, fam_d, col as usize, row as usize, d_ex);
    let s_row = spec_src_exclusive_count(g, src, dst, row) as int;
    let d_row = spec_dst_exclusive_count(g, src, dst, row) as int;
    let s_col = spec_src_exclusive_count(g, src, dst, col) as int;
    let d_col = spec_dst_exclusive_count(g, src, dst, col) as int;
    assert(s_col * s_row == s_row * s_col && d_col * d_row == d_col * d_row) by (nonlinear_arith);
}

/// Law: the tailed-triangle tri-edge formula never goes negative — the
/// chordal-cycle edge count recorded at a label pair never exceeds the
/// triangle-times-exclusive products it is subtracted from.
pub proof fn lemma_tailed_tri_edge_nonnegative<G: TypedGraph>(
    g: &G,
    src: usize,
    dst: usize,
    row: int,
    col: int,
)
    requires
        typed_graph_wf(g),
        src < g.spec_node_count(),
        dst < g.spec_node_count(),
        0 <= row,
        0 <= col,
    ensures
        row == col ==> spec_chordal_cycle_edge_count(g, src, dst, row, col) <= spec_triangle_count(
            g,
            src,
            dst,
            row,
        ) * (spec_src_exclusive_count(g, src, dst, row) + spec_dst_exclusive_count(
            g,
            src,
            dst,
            row,
        )),
        row != col ==> spec_chordal_cycle_edge_count(g, src, dst, row, col) <= spec_triangle_count(
            g,
            src,
            dst,
            row,
        ) * (spec_src_exclusive_count(g, src, dst, col) + spec_dst_exclusive_count(
            g,
            src,
            dst,
            col,
        )) + spec_triangle_count(g, src, dst, col) * (spec_src_exclusive_count(g, src, dst, row)
            + spec_dst_exclusive_count(g, src, dst, row)),
{
    let common = spec_triangle_nodes(g, src, dst);
    let s_ex = spec_src_exclusive(g, src, dst);
    let d_ex = spec_dst_exclusive(g, src, dst);
    let fam = chordal_cycle_edge_fam(g, src, dst);
    let fam_s = solely_adjacent_fam(g, src, dst, src, dst);
    let fam_d = solely_adjacent_fam(g, src, dst, dst, src);
    lemma_pair_count_split(g, common, fam, fam_s, fam_d, row as usize, col as usize);
    crate::neighbourhoods::lemma_filtered_nodes_bounded(g, src, common_pred(g, src, dst));
    crate::neighbourhoods::lemma_filter_sorted(
        g.spec_adjacency(src as int),
        exclusive_pred(g, src, dst),
    );
    crate::neighbourhoods::lemma_filter_sorted(
        g.spec_adjacency(dst as int),
        exclusive_pred(g, dst, src),
    );
    assert forall|r: usize, m: usize| #[trigger] fam_s(r)(m) implies s_ex.contains(m) by {
        crate::neighbourhoods::lemma_filter_membership(
            g.spec_adjacency(src as int),
            exclusive_pred(g, src, dst),
            m,
        );
    }
    assert forall|r: usize, m: usize| #[trigger] fam_d(r)(m) implies d_ex.contains(m) by {
        crate::neighbourhoods::lemma_filter_membership(
            g.spec_adjacency(dst as int),
            exclusive_pred(g, dst, src),
            m,
        );
    }
    lemma_pair_count_bound(g, common, fam_s, row as usize, col as usize, s_ex);
    lemma_pair_count_bound(g, common, fam_d, row as usize, col as usize, d_ex);
    let tri_row = spec_triangle_count(g, src, dst, row) as int;
    let tri_col = spec_triangle_count(g, src, dst, col) as int;
    let s_col = spec_src_exclusive_count(g, src, dst, col) as int;
    let d_col = spec_dst_exclusive_count(g, src, dst, col) as int;
    let s_row = spec_src_exclusive_count(g, src, dst, row) as int;
    let d_row = spec_dst_exclusive_count(g, src, dst, row) as int;
    assert(tri_row * s_col + tri_row * d_col == tri_row * (s_col + d_col)) by (nonlinear_arith);
    if row != col {
        assert(tri_col * (s_row + d_row) >= 0) by (nonlinear_arith)
            requires
                tri_col >= 0 && s_row >= 0 && d_row >= 0,
        ;
    }
}

/// Law: the heterogeneous chordal-cycle center formula never goes negative
/// — the four-clique count recorded at a pair of distinct labels never
/// exceeds the product of triangle tallies it is subtracted from.
pub proof fn lemma_chordal_cycle_center_nonnegative_hetero<G: TypedGraph>(
    g: &G,
    src: usize,
    dst: usize,
    row: int,
    col: int,
)
    requires
        typed_graph_wf(g),
        src < g.spec_node_count(),
        dst < g.spec_node_count(),
        0 <= row,
        0 <= col,
    ensures
        spec_four_clique_count(g, src, dst, row, col) <= spec_triangle_count(g, src, dst, row)
            * spec_triangle_count(g, src, dst, col),
{
    let common = spec_triangle_nodes(g, src, dst);
    let fam = four_clique_fam(g, src, dst);
    crate::neighbourhoods::lemma_filtered_nodes_bounded(g, src, common_pred(g, src, dst));
    crate::neighbourhoods::lemma_filter_sorted(
        g.spec_adjacency(src as int),
        common_pred(g, src, dst),
    );
    assert forall|r: usize, m: usize| #[trigger] fam(r)(m) implies common.contains(m) by {
        crate::neighbourhoods::lemma_filter_membership(
            g.spec_adjacency(src as int),
            common_pred(g, src, dst),
            m,
        );
    }
    lemma_pair_count_bound(g, common, fam, row as usize, col as usize, common);
}



/// The predicate keeping the values strictly below a bound.
pub open spec fn below_pred(bound: usize) -> spec_fn(usize) -> bool {
    |x: usize| x < bound
}

/// A downward-closed filter of a strictly ascending sequence keeps
/// exactly a prefix.
proof fn lemma_filter_prefix(s: Seq<usize>, p: spec_fn(usize) -> bool, i: int)
    requires
        0 <= i <= s.len(),
        forall|j: int| 0 <= j < s.len() ==> (#[trigger] p(s[j]) <==> j < i),
    ensures
        s.filter(p) == s.take(i),
    decreases s.len(),
{
    reveal(Seq::filter);
    if s.len() == 0 {
        assert(s.filter(p) =~= s.take(i));
    } else {
        let pre = s.drop_last();
        let last = s.last();
        if i == s.len() {
            assert(p(last));
            lemma_filter_prefix(pre, p, i - 1);
            assert(s.filter(p) =~= s.take(i));
        } else {
            assert(!p(last));
            lemma_filter_prefix(pre, p, i);
            assert(pre.take(i) =~= s.take(i));
        }
    }
}

/// In a strictly ascending sequence, the members below the `k`-th member
/// are exactly the first `k`.
proof fn lemma_sorted_below_is_prefix(s: Seq<usize>, k: int)
    requires
        crate::graph::strictly_sorted(s),
        0 <= k < s.len(),
    ensures
        s.filter(below_pred(s[k])) == s.take(k),
{
    assert forall|j: int| 0 <= j < s.len() implies (#[trigger] below_pred(s[k])(s[j]) <==> j
        < k) by {
        if j < k {
            assert(s[j] < s[k]);
        } else if j > k {
            assert(s[k] < s[j]);
        }
    }
    lemma_filter_prefix(s, below_pred(s[k]), k);
}

/// A root's contribution to a same-label second-order count, when the
/// condition confines the second-order neighbour at or below the root
/// within the root set itself, never exceeds the number of same-label
/// members strictly below the root.
proof fn lemma_inner_count_bound_strict<G: TypedGraph>(
    g: &G,
    root: usize,
    p: spec_fn(usize) -> bool,
    t: usize,
    s: Seq<usize>,
)
    requires
        crate::graph::strictly_sorted(g.spec_adjacency(root as int)),
        !g.spec_adjacency(root as int).contains(root),
        crate::graph::strictly_sorted(s),
        forall|m: usize| #[trigger] p(m) ==> s.contains(m) && m <= root,
    ensures
        spec_count_matching(g.spec_adjacency(root as int), and_label_pred(g, t, p))
            <= crate::neighbourhoods::spec_with_label(g, s, t).filter(below_pred(root)).len(),
{
    let adj = g.spec_adjacency(root as int);
    let f = adj.filter(and_label_pred(g, t, p));
    let lp = crate::neighbourhoods::label_pred(g, t);
    let target = s.filter(lp).filter(below_pred(root));
    crate::neighbourhoods::lemma_filter_sorted(adj, and_label_pred(g, t, p));
    crate::neighbourhoods::lemma_filter_sorted(s, lp);
    crate::neighbourhoods::lemma_filter_sorted(s.filter(lp), below_pred(root));
    assert forall|x: usize| f.contains(x) implies target.contains(x) by {
        crate::neighbourhoods::lemma_filter_membership(adj, and_label_pred(g, t, p), x);
        crate::neighbourhoods::lemma_filter_membership(s, lp, x);
        crate::neighbourhoods::lemma_filter_membership(s.filter(lp), below_pred(root), x);
        assert(x != root);
    }
    lemma_sorted_members_length(f, target);
}

/// Same-label second-order pairs whose condition confines the neighbour
/// at or below the root within the root set itself number at most "label
/// tally choose two": each root pairs only with the same-label members
/// strictly below it.
proof fn lemma_pair_count_choose_two<G: TypedGraph>(
    g: &G,
    s: Seq<usize>,
    fam: spec_fn(usize) -> spec_fn(usize) -> bool,
    t: usize,
    k: int,
)
    requires
        typed_graph_wf(g),
        crate::graph::strictly_sorted(s),
        forall|j: int| 0 <= j < s.len() ==> (#[trigger] s[j]) < g.spec_node_count(),
        forall|r: usize, m: usize| #[trigger] fam(r)(m) ==> s.contains(m) && m <= r,
        0 <= k <= s.len(),
    ensures
        pair_count(g, s.take(k), fam, t, t) <= crate::utils::spec_binomial_two(
            spec_count_with_label(g, s.take(k), t) as int,
        ),
    decreases k,
{
    reveal(Seq::filter);
    let lp = crate::neighbourhoods::label_pred(g, t);
    if k == 0 {
        assert(s.take(0) =~= Seq::<usize>::empty());
        assert(pair_count(g, s.take(k), fam, t, t) == 0);
        assert(spec_count_with_label(g, s.take(k), t) == 0);
        assert(crate::utils::spec_binomial_two(0) == 0);
    } else {
        lemma_pair_count_choose_two(g, s, fam, t, k - 1);
        let roots = s.take(k);
        let pre = s.take(k - 1);
        let r = s[k - 1];
        assert(roots.drop_last() =~= pre);
        assert(roots.last() == r);
        let w = pair_weight(g, fam, t, t);
        assert(spec_sum(roots, w) == spec_sum(pre, w) + w(r));
        assert(roots.filter(lp) == if lp(r) {
            pre.filter(lp).push(r)
        } else {
            pre.filter(lp)
        });
        let c_pre = spec_count_with_label(g, pre, t) as int;
        if g.spec_label(r as int) == t {
            lemma_inner_count_bound_strict(g, r, fam(r), t, s);
            // the same-label members below the root all sit in the prefix
            crate::neighbourhoods::lemma_filter_sorted(s, lp);
            crate::neighbourhoods::lemma_filter_sorted(s.filter(lp), below_pred(r));
            crate::neighbourhoods::lemma_filter_sorted(pre, lp);
            assert forall|x: usize| s.filter(lp).filter(below_pred(r)).contains(x)
                implies pre.filter(lp).contains(x) by {
                crate::neighbourhoods::lemma_filter_membership(s.filter(lp), below_pred(r), x);
                crate::neighbourhoods::lemma_filter_membership(s, lp, x);
                let j = choose|j: int| 0 <= j < s.len() && s[j] == x;
                assert(j < k - 1 || j >= k - 1);
                if j >= k - 1 {
                    assert(s[k - 1] <= s[j]);
                }
                assert(pre[j] == x);
                assert(pre.contains(x));
                crate::neighbourhoods::lemma_filter_membership(pre, lp, x);
            }
            lemma_sorted_members_length(
                s.filter(lp).filter(below_pred(r)),
                pre.filter(lp),
            );
            assert(w(r) <= c_pre);
            assert(spec_count_with_label(g, roots, t) as int == c_pre + 1);
            assert(crate::utils::spec_binomial_two(c_pre) + c_pre
                == crate::utils::spec_binomial_two(c_pre + 1)) by {
                lemma_binomial_two_step(c_pre);
            }
            assert(pair_count(g, roots, fam, t, t) == pair_count(g, pre, fam, t, t) + w(r));
            assert(pair_count(g, pre, fam, t, t) <= crate::utils::spec_binomial_two(c_pre));
            assert(pair_count(g, roots, fam, t, t) <= crate::utils::spec_binomial_two(c_pre)
                + c_pre);
            assert(pair_count(g, roots, fam, t, t) <= crate::utils::spec_binomial_two(
                spec_count_with_label(g, roots, t) as int,
            ));
        } else {
            assert(w(r) == 0);
            assert(spec_count_with_label(g, roots, t) as int == c_pre);
            assert(pair_count(g, roots, fam, t, t) == pair_count(g, pre, fam, t, t));
            assert(pair_count(g, roots, fam, t, t) <= crate::utils::spec_binomial_two(
                spec_count_with_label(g, roots, t) as int,
            ));
        }
    }
}

/// Adding one more member to a set adds as many new unordered pairs as
/// the set previously held members.
proof fn lemma_binomial_two_step(c: int)
    requires
        c >= 0,
    ensures
        crate::utils::spec_binomial_two(c) + c == crate::utils::spec_binomial_two(c + 1),
{
    assert((c + 1) * c == c * (c - 1) + 2 * c) by (nonlinear_arith);
    if c % 2 == 0 {
        let e = c / 2;
        assert(c == 2 * e);
        assert(c * (c - 1) == 2 * (e * (c - 1)) && (c + 1) * c == 2 * (e * (c + 1)))
            by (nonlinear_arith)
            requires
                c == 2 * e,
        ;
        assert(c * (c - 1) / 2 == e * (c - 1) && (c + 1) * c / 2 == e * (c + 1)) by {
            vstd::arithmetic::div_mod::lemma_div_multiples_vanish(e * (c - 1), 2);
            vstd::arithmetic::div_mod::lemma_div_multiples_vanish(e * (c + 1), 2);
        }
        assert(e * (c + 1) == e * (c - 1) + 2 * e) by (nonlinear_arith);
    } else {
        let e = (c - 1) / 2;
        assert(c % 2 == 1);
        assert(c == 2 * e + 1) by {
            vstd::arithmetic::div_mod::lemma_fundamental_div_mod(c, 2);
        }
        assert(c * (c - 1) == 2 * (e * c) && (c + 1) * c == 2 * ((e + 1) * c))
            by (nonlinear_arith)
            requires
                c == 2 * e + 1,
        ;
        assert(c * (c - 1) / 2 == e * c && (c + 1) * c / 2 == (e + 1) * c) by {
            vstd::arithmetic::div_mod::lemma_div_multiples_vanish(e * c, 2);
            vstd::arithmetic::div_mod::lemma_div_multiples_vanish((e + 1) * c, 2);
        }
        assert((e + 1) * c == e * c + c) by (nonlinear_arith);
    }
}

/// Law: the homogeneous chordal-cycle center formula never goes negative
/// — the four-cliques recorded at one label never exceed the pairs of
/// same-label triangle nodes they are subtracted from.
pub proof fn lemma_chordal_cycle_center_nonnegative_homo<G: TypedGraph>(
    g: &G,
    src: usize,
    dst: usize,
    t: int,
)
    requires
        typed_graph_wf(g),
        src < g.spec_node_count(),
        dst < g.spec_node_count(),
        0 <= t,
    ensures
        spec_four_clique_count(g, src, dst, t, t) <= crate::utils::spec_binomial_two(
            spec_triangle_count(g, src, dst, t) as int,
        ),
{
    let common = spec_triangle_nodes(g, src, dst);
    let fam = four_clique_fam(g, src, dst);
    crate::neighbourhoods::lemma_filtered_nodes_bounded(g, src, common_pred(g, src, dst));
    crate::neighbourhoods::lemma_filter_sorted(
        g.spec_adjacency(src as int),
        common_pred(g, src, dst),
    );
    assert forall|r: usize, m: usize| #[trigger] fam(r)(m) implies common.contains(m) && m <= r by {
        crate::neighbourhoods::lemma_filter_membership(
            g.spec_adjacency(src as int),
            common_pred(g, src, dst),
            m,
        );
    }
    lemma_pair_count_choose_two(g, common, fam, t as usize, common.len() as int);
    assert(common.take(common.len() as int) =~= common);
}

/// Law: the homogeneous four-star formula never goes negative — the
/// tailed-triangle tails recorded at one label never exceed the pairs of
/// same-label exclusive neighbours they are subtracted from, side by
/// side.
pub proof fn lemma_four_star_nonnegative_homo<G: TypedGraph>(g: &G, src: usize, dst: usize, t: int)
    requires
        typed_graph_wf(g),
        src < g.spec_node_count(),
        dst < g.spec_node_count(),
        0 <= t,
    ensures
        spec_tailed_tri_tail_count(g, src, dst, t, t) <= crate::utils::spec_binomial_two(
            spec_src_exclusive_count(g, src, dst, t) as int,
        ) + crate::utils::spec_binomial_two(spec_dst_exclusive_count(g, src, dst, t) as int),
{
    let s_ex = spec_src_exclusive(g, src, dst);
    let d_ex = spec_dst_exclusive(g, src, dst);
    let fam_s = tailed_tri_tail_fam(g, src, dst, src, dst);
    let fam_d = tailed_tri_tail_fam(g, src, dst, dst, src);
    crate::neighbourhoods::lemma_filtered_nodes_bounded(g, src, exclusive_pred(g, src, dst));
    crate::neighbourhoods::lemma_filtered_nodes_bounded(g, dst, exclusive_pred(g, dst, src));
    crate::neighbourhoods::lemma_filter_sorted(
        g.spec_adjacency(src as int),
        exclusive_pred(g, src, dst),
    );
    crate::neighbourhoods::lemma_filter_sorted(
        g.spec_adjacency(dst as int),
        exclusive_pred(g, dst, src),
    );
    assert forall|r: usize, m: usize| #[trigger] fam_s(r)(m) implies s_ex.contains(m) && m <= r by {
        crate::neighbourhoods::lemma_filter_membership(
            g.spec_adjacency(src as int),
            exclusive_pred(g, src, dst),
            m,
        );
    }
    assert forall|r: usize, m: usize| #[trigger] fam_d(r)(m) implies d_ex.contains(m) && m <= r by {
        crate::neighbourhoods::lemma_filter_membership(
            g.spec_adjacency(dst as int),
            exclusive_pred(g, dst, src),
            m,
        );
    }
    lemma_pair_count_choose_two(g, s_ex, fam_s, t as usize, s_ex.len() as int);
    lemma_pair_count_choose_two(g, d_ex, fam_d, t as usize, d_ex.len() as int);
    assert(s_ex.take(s_ex.len() as int) =~= s_ex);
    assert(d_ex.take(d_ex.len() as int) =~= d_ex);
}


} // verus!
