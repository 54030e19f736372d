//! Neighbour-set operations over sorted adjacency lists.
//!
//! The classifier partitions the neighbourhood of an edge `(src, dst)`
//! into the common neighbours (triangle nodes) and the neighbours
//! exclusive to one endpoint, and tallies each part by node label.  This
//! module gives those parts exact sequence-level specifications and the
//! executable functions that compute them.

use vstd::prelude::*;

use crate::graph::{strictly_sorted, Graph, TypedGraph};

verus! {

/// `x` appears in the neighbour list of `v`.
pub open spec fn is_neighbour<G: Graph>(g: &G, v: usize, x: usize) -> bool {
    g.spec_adjacency(v as int).contains(x)
}

/// The predicate kept by the common-neighbour filter: a neighbour of `a`
/// that is neither endpoint and is also a neighbour of `b`.
pub open spec fn common_pred<G: Graph>(g: &G, a: usize, b: usize) -> spec_fn(usize) -> bool {
    |n: usize| n != a && n != b && is_neighbour(g, b, n)
}

/// The predicate kept by the exclusive-neighbour filter: a neighbour of
/// `a` that is neither endpoint and is not a neighbour of `b`.
pub open spec fn exclusive_pred<G: Graph>(g: &G, a: usize, b: usize) -> spec_fn(usize) -> bool {
    |n: usize| n != a && n != b && !is_neighbour(g, b, n)
}

/// The predicate keeping the nodes that carry label `t`.
pub open spec fn label_pred<G: TypedGraph>(g: &G, t: usize) -> spec_fn(usize) -> bool {
    |n: usize| g.spec_label(n as int) == t
}

/// The common neighbours of `a` and `b`: every node adjacent to both,
/// excluding the two endpoints themselves, in ascending order.
pub open spec fn spec_common_neighbours<G: Graph>(g: &G, a: usize, b: usize) -> Seq<usize> {
    g.spec_adjacency(a as int).filter(common_pred(g, a, b))
}

/// The neighbours of `a` exclusive of `b`: every node adjacent to `a` but
/// not to `b`, excluding the two endpoints themselves, in ascending order.
pub open spec fn spec_exclusive_neighbours<G: Graph>(g: &G, a: usize, b: usize) -> Seq<usize> {
    g.spec_adjacency(a as int).filter(exclusive_pred(g, a, b))
}

/// The members of `s` that carry label `t`, in order.
pub open spec fn spec_with_label<G: TypedGraph>(g: &G, s: Seq<usize>, t: usize) -> Seq<usize> {
    s.filter(label_pred(g, t))
}

/// How many members of `s` carry label `t`.
pub open spec fn spec_count_with_label<G: TypedGraph>(g: &G, s: Seq<usize>, t: usize) -> nat {
    spec_with_label(g, s, t).len()
}

/// Filtering a one-longer prefix keeps the filtered prefix and appends the
/// new element exactly when the predicate holds of it.
pub proof fn lemma_filter_take_step(s: Seq<usize>, p: spec_fn(usize) -> bool, i: int)
    requires
        0 <= i < s.len(),
    ensures
        s.take(i + 1).filter(p) == if p(s[i]) {
            s.take(i).filter(p).push(s[i])
        } else {
            s.take(i).filter(p)
        },
{
    reveal(Seq::filter);
    assert(s.take(i + 1).drop_last() =~= s.take(i));
    assert(s.take(i + 1).last() == s[i]);
}

/// A full-length prefix is the sequence itself, so the filtered prefix is
/// the filtered sequence.
pub proof fn lemma_filter_take_all(s: Seq<usize>, p: spec_fn(usize) -> bool)
    ensures
        s.take(s.len() as int).filter(p) == s.filter(p),
{
    assert(s.take(s.len() as int) =~= s);
}

/// Every member of a filtered neighbour list is a valid node identifier.
pub proof fn lemma_filtered_nodes_bounded<G: Graph>(g: &G, a: usize, p: spec_fn(usize) -> bool)
    requires
        crate::graph::graph_wf(g),
        a < g.spec_node_count(),
    ensures
        forall|k: int|
            0 <= k < g.spec_adjacency(a as int).filter(p).len() ==> (#[trigger] g.spec_adjacency(
                a as int,
            ).filter(p)[k]) < g.spec_node_count(),
{
    let s = g.spec_adjacency(a as int);
    assert forall|k: int|
        0 <= k < s.filter(p).len() implies (#[trigger] s.filter(p)[k])
        < g.spec_node_count() by {
        let x = s.filter(p)[k];
        assert(s.filter(p).contains(x));
        s.lemma_filter_contains_rev(p, x);
        let j = choose|j: int| 0 <= j < s.len() && s[j] == x;
        assert(s[j] < g.spec_node_count());
    }
}

/// Whether a vector contains a value, by linear scan.
pub fn linear_contains(v: &Vec<usize>, x: usize) -> (r: bool)
    ensures
        r == v@.contains(x),
{
    let mut i: usize = 0;
    while i < v.len()
        invariant
            i <= v@.len(),
            forall|k: int| 0 <= k < i ==> v@[k] != x,
        decreases v@.len() - i,
    {
        if v[i] == x {
            return true;
        }
        i = i + 1;
    }
    false
}

/// Whether a strictly ascending vector contains a value, by binary search.
pub fn sorted_contains(v: &Vec<usize>, x: usize) -> (r: bool)
    requires
        strictly_sorted(v@),
    ensures
        r == v@.contains(x),
{
    let mut low: usize = 0;
    let mut high: usize = v.len();
    while low < high
        invariant
            low <= high <= v@.len(),
            strictly_sorted(v@),
            forall|k: int| 0 <= k < low ==> v@[k] < x,
            forall|k: int| high <= k < v@.len() ==> v@[k] > x,
        decreases high - low,
    {
        let mid = low + (high - low) / 2;
        if v[mid] == x {
            return true;
        } else if v[mid] < x {
            low = mid + 1;
        } else {
            high = mid;
        }
    }
    proof {
        assert(forall|k: int| 0 <= k < v@.len() ==> v@[k] != x);
    }
    false
}

/// The common neighbours of `a` and `b`, excluding both endpoints: the
/// nodes forming a triangle with the edge `(a, b)` when that edge exists.
pub fn common_neighbours<G: Graph>(g: &G, a: usize, b: usize) -> (r: Vec<usize>)
    requires
        crate::graph::graph_wf(g),
        a < g.spec_node_count(),
        b < g.spec_node_count(),
    ensures
        r@ == spec_common_neighbours(g, a, b),
{
    let a_adj = g.iter_neighbours(a);
    let b_adj = g.iter_neighbours(b);
    let ghost p = common_pred(g, a, b);
    let mut r: Vec<usize> = Vec::new();
    let mut i: usize = 0;
    proof {
        assert(a_adj@.take(0).filter(p) =~= Seq::<usize>::empty());
        reveal(Seq::filter);
    }
    while i < a_adj.len()
        invariant
            i <= a_adj@.len(),
            a_adj@ == g.spec_adjacency(a as int),
            b_adj@ == g.spec_adjacency(b as int),
            p == common_pred(g, a, b),
            strictly_sorted(b_adj@),
            r@ == a_adj@.take(i as int).filter(p),
        decreases a_adj@.len() - i,
    {
        let n = a_adj[i];
        proof {
            lemma_filter_take_step(a_adj@, p, i as int);
        }
        if n != a && n != b && sorted_contains(&b_adj, n) {
            r.push(n);
        }
        i = i + 1;
    }
    proof {
        lemma_filter_take_all(a_adj@, p);
    }
    r
}

/// The neighbours of `a` that are not neighbours of `b`, excluding both
/// endpoints.
pub fn exclusive_neighbours<G: Graph>(g: &G, a: usize, b: usize) -> (r: Vec<usize>)
    requires
        crate::graph::graph_wf(g),
        a < g.spec_node_count(),
        b < g.spec_node_count(),
    ensures
        r@ == spec_exclusive_neighbours(g, a, b),
{
    let a_adj = g.iter_neighbours(a);
    let b_adj = g.iter_neighbours(b);
    let ghost p = exclusive_pred(g, a, b);
    let mut r: Vec<usize> = Vec::new();
    let mut i: usize = 0;
    proof {
        assert(a_adj@.take(0).filter(p) =~= Seq::<usize>::empty());
        reveal(Seq::filter);
    }
    while i < a_adj.len()
        invariant
            i <= a_adj@.len(),
            a_adj@ == g.spec_adjacency(a as int),
            b_adj@ == g.spec_adjacency(b as int),
            p == exclusive_pred(g, a, b),
            strictly_sorted(b_adj@),
            r@ == a_adj@.take(i as int).filter(p),
        decreases a_adj@.len() - i,
    {
        let n = a_adj[i];
        proof {
            lemma_filter_take_step(a_adj@, p, i as int);
        }
        if n != a && n != b && !sorted_contains(&b_adj, n) {
            r.push(n);
        }
        i = i + 1;
    }
    proof {
        lemma_filter_take_all(a_adj@, p);
    }
    r
}

/// Tallies the members of `nodes` by label: slot `t` of the result counts
/// the members carrying label `t`.
pub fn label_tally<G: TypedGraph>(g: &G, nodes: &Vec<usize>, labels: usize) -> (r: Vec<usize>)
    requires
        crate::graph::typed_graph_wf(g),
        labels == g.spec_label_count(),
        forall|k: int| 0 <= k < nodes@.len() ==> (#[trigger] nodes@[k]) < g.spec_node_count(),
    ensures
        r@.len() == labels,
        forall|t: int|
            0 <= t < labels ==> r@[t] == spec_count_with_label(g, nodes@, t as usize),
{
    let mut r: Vec<usize> = Vec::new();
    let mut t: usize = 0;
    while t < labels
        invariant
            t <= labels,
            r@.len() == t,
            forall|k: int| 0 <= k < t ==> r@[k] == 0,
        decreases labels - t,
    {
        r.push(0);
        t = t + 1;
    }
    let mut i: usize = 0;
    proof {
        assert forall|tt: int| 0 <= tt < labels implies r@[tt] == spec_count_with_label(
            g,
            nodes@.take(0),
            tt as usize,
        ) by {
            assert(nodes@.take(0).filter(label_pred(g, tt as usize)) =~= Seq::<usize>::empty());
            reveal(Seq::filter);
        }
    }
    while i < nodes.len()
        invariant
            i <= nodes@.len(),
            crate::graph::typed_graph_wf(g),
            labels == g.spec_label_count(),
            forall|k: int| 0 <= k < nodes@.len() ==> (#[trigger] nodes@[k]) < g.spec_node_count(),
            r@.len() == labels,
            forall|t: int|
                0 <= t < labels ==> r@[t] == spec_count_with_label(
                    g,
                    nodes@.take(i as int),
                    t as usize,
                ),
        decreases nodes@.len() - i,
    {
        let n = nodes[i];
        let t = g.get_node_label(n);
        let ghost old_r = r@;
        proof {
            assert forall|tt: int| 0 <= tt < labels implies (#[trigger] nodes@.take(i + 1).filter(
                label_pred(g, tt as usize),
            )) == if g.spec_label(n as int) == tt {
                nodes@.take(i as int).filter(label_pred(g, tt as usize)).push(n)
            } else {
                nodes@.take(i as int).filter(label_pred(g, tt as usize))
            } by {
                lemma_filter_take_step(nodes@, label_pred(g, tt as usize), i as int);
            }
        }
        proof {
            assert(spec_count_with_label(g, nodes@.take(i as int), t) <= nodes@.take(
                i as int,
            ).len()) by {
                nodes@.take(i as int).lemma_filter_len(label_pred(g, t));
            }
        }
        let count = r[t];
        r.set(t, count + 1);
        i = i + 1;
    }
    proof {
        assert(nodes@.take(nodes@.len() as int) =~= nodes@);
    }
    r
}


/// The predicate keeping the neighbours that are neither endpoint.
pub open spec fn endpoint_free_pred(a: usize, b: usize) -> spec_fn(usize) -> bool {
    |n: usize| n != a && n != b
}

/// Two filters that split a base filter partition its label-restricted
/// count: members satisfying the base split exactly into the two parts.
pub proof fn lemma_filter_partition(
    s: Seq<usize>,
    p_all: spec_fn(usize) -> bool,
    p_yes: spec_fn(usize) -> bool,
    p_no: spec_fn(usize) -> bool,
    q: spec_fn(usize) -> bool,
)
    requires
        forall|n: usize| #[trigger] p_yes(n) ==> p_all(n),
        forall|n: usize| #[trigger] p_no(n) ==> p_all(n),
        forall|n: usize| #[trigger] p_all(n) ==> (p_yes(n) <==> !p_no(n)),
    ensures
        s.filter(p_yes).filter(q).len() + s.filter(p_no).filter(q).len() == s.filter(p_all).filter(
            q,
        ).len(),
    decreases s.len(),
{
    reveal(Seq::filter);
    if s.len() > 0 {
        let pre = s.drop_last();
        let x = s.last();
        lemma_filter_partition(pre, p_all, p_yes, p_no, q);
        assert(s.filter(p_yes) == if p_yes(x) {
            pre.filter(p_yes).push(x)
        } else {
            pre.filter(p_yes)
        });
        assert(s.filter(p_no) == if p_no(x) {
            pre.filter(p_no).push(x)
        } else {
            pre.filter(p_no)
        });
        assert(s.filter(p_all) == if p_all(x) {
            pre.filter(p_all).push(x)
        } else {
            pre.filter(p_all)
        });
        if p_yes(x) {
            lemma_filter_push_step(pre.filter(p_yes), x, q);
        }
        if p_no(x) {
            lemma_filter_push_step(pre.filter(p_no), x, q);
        }
        if p_all(x) {
            lemma_filter_push_step(pre.filter(p_all), x, q);
        }
    }
}

/// Filtering after a push keeps the filtered prefix and appends the new
/// element exactly when the predicate holds of it.
proof fn lemma_filter_push_step(s: Seq<usize>, x: usize, q: spec_fn(usize) -> bool)
    ensures
        s.push(x).filter(q) == if q(x) {
            s.filter(q).push(x)
        } else {
            s.filter(q)
        },
{
    reveal(Seq::filter);
    assert(s.push(x).drop_last() =~= s);
}

/// Law: for every node label, the common neighbours and the exclusive
/// neighbours of an endpoint partition its neighbourhood with the other
/// endpoint excluded — the triangle tally plus the exclusive tally equals
/// the endpoint's total count of neighbours of that label.
pub proof fn lemma_label_neighbourhood_partition<G: TypedGraph>(g: &G, a: usize, b: usize, t: usize)
    ensures
        spec_count_with_label(g, spec_common_neighbours(g, a, b), t) + spec_count_with_label(
            g,
            spec_exclusive_neighbours(g, a, b),
            t,
        ) == spec_count_with_label(
            g,
            g.spec_adjacency(a as int).filter(endpoint_free_pred(a, b)),
            t,
        ),
{
    lemma_filter_partition(
        g.spec_adjacency(a as int),
        endpoint_free_pred(a, b),
        common_pred(g, a, b),
        exclusive_pred(g, a, b),
        label_pred(g, t),
    );
}

/// Iterate the neighbours of a node solely of the given label.
pub fn iter_neighbours_of_label<G: TypedGraph>(g: &G, node: usize, label: usize) -> (r: Vec<usize>)
    requires
        crate::graph::graph_wf(g),
        node < g.spec_node_count(),
    ensures
        r@ == spec_with_label(g, g.spec_adjacency(node as int), label),
        r@.len() == spec_count_with_label(g, g.spec_adjacency(node as int), label),
{
    let adj = g.iter_neighbours(node);
    proof {
        assert forall|k: int| 0 <= k < adj@.len() implies (#[trigger] adj@[k])
            < g.spec_node_count() by {
            assert(g.spec_adjacency(node as int)[k] < g.spec_node_count());
        }
    }
    filter_by_label(g, &adj, label)
}

/// Returns the subtraction of the neighbours of two given nodes restricted
/// to a given label: the first node's neighbours of that label that are
/// not neighbours of the second node, the endpoints excluded.
pub fn get_subtraction_of_neighbours_of_label<G: TypedGraph>(
    g: &G,
    first_node: usize,
    second_node: usize,
    label: usize,
) -> (r: Vec<usize>)
    requires
        crate::graph::graph_wf(g),
        first_node < g.spec_node_count(),
        second_node < g.spec_node_count(),
    ensures
        r@ == spec_with_label(g, spec_exclusive_neighbours(g, first_node, second_node), label),
        r@.len() == spec_count_with_label(
            g,
            spec_exclusive_neighbours(g, first_node, second_node),
            label,
        ),
{
    let exclusive = exclusive_neighbours(g, first_node, second_node);
    proof {
        lemma_filtered_nodes_bounded(g, first_node, exclusive_pred(g, first_node, second_node));
    }
    filter_by_label(g, &exclusive, label)
}

/// Returns the intersection of the neighbours of two given nodes
/// restricted to a given label, the endpoints excluded.
pub fn get_intersection_of_neighbours_of_label<G: TypedGraph>(
    g: &G,
    first_node: usize,
    second_node: usize,
    label: usize,
) -> (r: Vec<usize>)
    requires
        crate::graph::graph_wf(g),
        first_node < g.spec_node_count(),
        second_node < g.spec_node_count(),
    ensures
        r@ == spec_with_label(g, spec_common_neighbours(g, first_node, second_node), label),
        r@.len() == spec_count_with_label(
            g,
            spec_common_neighbours(g, first_node, second_node),
            label,
        ),
{
    let common = common_neighbours(g, first_node, second_node);
    proof {
        lemma_filtered_nodes_bounded(g, first_node, common_pred(g, first_node, second_node));
    }
    filter_by_label(g, &common, label)
}

/// The size of the label-restricted intersection of two neighbourhoods.
pub fn get_intersection_size_of_label<G: TypedGraph>(
    g: &G,
    src: usize,
    dst: usize,
    label: usize,
) -> (r: usize)
    requires
        crate::graph::graph_wf(g),
        src < g.spec_node_count(),
        dst < g.spec_node_count(),
    ensures
        r == spec_count_with_label(g, spec_common_neighbours(g, src, dst), label),
{
    let intersection = get_intersection_of_neighbours_of_label(g, src, dst, label);
    intersection.len()
}

/// Keeps the members of a node vector that carry the given label.
fn filter_by_label<G: TypedGraph>(g: &G, nodes: &Vec<usize>, label: usize) -> (r: Vec<usize>)
    requires
        forall|k: int| 0 <= k < nodes@.len() ==> (#[trigger] nodes@[k]) < g.spec_node_count(),
    ensures
        r@ == spec_with_label(g, nodes@, label),
{
    let ghost p = label_pred(g, label);
    let mut r: Vec<usize> = Vec::new();
    let mut i: usize = 0;
    proof {
        assert(nodes@.take(0).filter(p) =~= Seq::<usize>::empty());
        reveal(Seq::filter);
    }
    while i < nodes.len()
        invariant
            i <= nodes@.len(),
            p == label_pred(g, label),
            forall|k: int| 0 <= k < nodes@.len() ==> (#[trigger] nodes@[k]) < g.spec_node_count(),
            r@ == nodes@.take(i as int).filter(p),
        decreases nodes@.len() - i,
    {
        let n = nodes[i];
        proof {
            lemma_filter_take_step(nodes@, p, i as int);
        }
        if g.get_node_label(n) == label {
            r.push(n);
        }
        i = i + 1;
    }
    proof {
        lemma_filter_take_all(nodes@, p);
    }
    r
}



/// Strictly ascending sequences with the same members are the same
/// sequence.
pub proof fn lemma_sorted_equal_membership(s1: Seq<usize>, s2: Seq<usize>)
    requires
        strictly_sorted(s1),
        strictly_sorted(s2),
        forall|x: usize| s1.contains(x) <==> s2.contains(x),
    ensures
        s1 == s2,
    decreases s1.len(),
{
    if s1.len() == 0 {
        if s2.len() > 0 {
            assert(s2.contains(s2[0]));
            assert(s1.contains(s2[0]));
        }
        assert(s1 =~= s2);
    } else {
        assert(s1.contains(s1[0]));
        assert(s2.contains(s1[0]));
        assert(s2.len() > 0);
        assert(s2.contains(s2[0]));
        assert(s1.contains(s2[0]));
        let i2 = choose|j: int| 0 <= j < s2.len() && s2[j] == s1[0];
        let i1 = choose|j: int| 0 <= j < s1.len() && s1[j] == s2[0];
        assert(s2[0] <= s2[i2] && s1[0] <= s1[i1]);
        assert(s1[0] == s2[0]);
        let t1 = s1.drop_first();
        let t2 = s2.drop_first();
        assert forall|x: usize| t1.contains(x) <==> t2.contains(x) by {
            if t1.contains(x) {
                let j = choose|j: int| 0 <= j < t1.len() && t1[j] == x;
                assert(s1[j + 1] == x);
                assert(s1[0] < x);
                assert(s2.contains(x));
                let k = choose|k: int| 0 <= k < s2.len() && s2[k] == x;
                assert(k > 0);
                assert(t2[k - 1] == x);
                assert(t2.contains(x));
            }
            if t2.contains(x) {
                let j = choose|j: int| 0 <= j < t2.len() && t2[j] == x;
                assert(s2[j + 1] == x);
                assert(s2[0] < x);
                assert(s1.contains(x));
                let k = choose|k: int| 0 <= k < s1.len() && s1[k] == x;
                assert(k > 0);
                assert(t1[k - 1] == x);
                assert(t1.contains(x));
            }
        }
        lemma_sorted_equal_membership(t1, t2);
        assert(s1.len() == s2.len());
        assert forall|i: int| 0 <= i < s1.len() implies s1[i] == s2[i] by {
            if i > 0 {
                assert(t1[i - 1] == t2[i - 1]);
            }
        }
        assert(s1 =~= s2);
    }
}

/// A filtered sequence holds exactly the members of the original that
/// satisfy the predicate.
pub proof fn lemma_filter_membership(s: Seq<usize>, p: spec_fn(usize) -> bool, x: usize)
    ensures
        s.filter(p).contains(x) <==> s.contains(x) && p(x),
{
    if s.filter(p).contains(x) {
        s.lemma_filter_contains_rev(p, x);
        let j = choose|j: int| 0 <= j < s.filter(p).len() && s.filter(p)[j] == x;
        s.lemma_filter_pred(p, j);
    }
    if s.contains(x) && p(x) {
        let j = choose|j: int| 0 <= j < s.len() && s[j] == x;
        s.lemma_filter_contains(p, j);
    }
}

/// The common neighbours of an edge do not depend on which endpoint roots
/// the scan: the set intersection is symmetric.
pub proof fn lemma_common_neighbours_symmetric<G: Graph>(g: &G, a: usize, b: usize)
    requires
        crate::graph::graph_wf(g),
        a < g.spec_node_count(),
        b < g.spec_node_count(),
    ensures
        spec_common_neighbours(g, a, b) == spec_common_neighbours(g, b, a),
{
    let sa = g.spec_adjacency(a as int);
    let sb = g.spec_adjacency(b as int);
    assert forall|x: usize|
        spec_common_neighbours(g, a, b).contains(x) <==> spec_common_neighbours(g, b, a).contains(
            x,
        ) by {
        lemma_filter_membership(sa, common_pred(g, a, b), x);
        lemma_filter_membership(sb, common_pred(g, b, a), x);
        if sa.contains(x) {
            let j = choose|j: int| 0 <= j < sa.len() && sa[j] == x;
            assert(sa[j] < g.spec_node_count());
            assert(g.spec_adjacency(a as int).contains(x as usize));
        }
        if sb.contains(x) {
            let j = choose|j: int| 0 <= j < sb.len() && sb[j] == x;
            assert(sb[j] < g.spec_node_count());
            assert(g.spec_adjacency(b as int).contains(x as usize));
        }
    }
    assert(strictly_sorted(spec_common_neighbours(g, a, b))) by {
        lemma_filter_sorted(sa, common_pred(g, a, b));
    }
    assert(strictly_sorted(spec_common_neighbours(g, b, a))) by {
        lemma_filter_sorted(sb, common_pred(g, b, a));
    }
    lemma_sorted_equal_membership(
        spec_common_neighbours(g, a, b),
        spec_common_neighbours(g, b, a),
    );
}

/// Filtering preserves a strictly ascending order.
pub proof fn lemma_filter_sorted(s: Seq<usize>, p: spec_fn(usize) -> bool)
    requires
        strictly_sorted(s),
    ensures
        strictly_sorted(s.filter(p)),
    decreases s.len(),
{
    reveal(Seq::filter);
    if s.len() > 0 {
        let pre = s.drop_last();
        lemma_filter_sorted(pre, p);
        if p(s.last()) {
            assert forall|k: int| 0 <= k < pre.filter(p).len() implies pre.filter(p)[k]
                < s.last() by {
                assert(pre.filter(p).contains(pre.filter(p)[k]));
                pre.lemma_filter_contains_rev(p, pre.filter(p)[k]);
                let j = choose|j: int| 0 <= j < pre.len() && pre[j] == pre.filter(p)[k];
                assert(s[j] < s.last());
            }
        }
    }
}


} // verus!
