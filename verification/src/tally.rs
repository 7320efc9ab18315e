//! The sufficient statistics of a two-block partition: how many edges lie
//! inside block 0, inside block 1 and across, and how these numbers move
//! when one node changes its block.

use crate::adjacency::{far_ends, GRAPH_LIMIT};
use crate::graph::GraphWrapper;
use vstd::prelude::*;
use vstd::seq_lib::{to_multiset_build, to_multiset_contains, to_multiset_len, to_multiset_remove};

verus! {

/// Edge counts by block pair, or a change of them.
pub struct Counts {
    /// Edges with both ends in block 0.
    pub m00: int,
    /// Edges with both ends in block 1.
    pub m11: int,
    /// Edges with one end in each block.
    pub m01: int,
}

impl Counts {
    pub open spec fn zero() -> Counts {
        Counts { m00: 0, m11: 0, m01: 0 }
    }

    pub open spec fn plus(self, other: Counts) -> Counts {
        Counts {
            m00: self.m00 + other.m00,
            m11: self.m11 + other.m11,
            m01: self.m01 + other.m01,
        }
    }

    pub open spec fn total(self) -> int {
        self.m00 + self.m11 + self.m01
    }

    /// The counts with one more edge whose ends carry the labels `a` and `b`.
    pub open spec fn with_edge(self, a: i8, b: i8) -> Counts {
        if a != b {
            Counts { m01: self.m01 + 1, ..self }
        } else if a == 0 {
            Counts { m00: self.m00 + 1, ..self }
        } else {
            Counts { m11: self.m11 + 1, ..self }
        }
    }
}

/// Every node carries the label 0 or the label 1.
pub open spec fn is_partition(labels: Seq<i8>) -> bool {
    forall|i: int| 0 <= i < labels.len() ==> #[trigger] labels[i] == 0 || labels[i] == 1
}

/// Every edge joins two of the first `n` nodes.
pub open spec fn edges_within(edges: Seq<(usize, usize)>, n: nat) -> bool {
    forall|e: int| 0 <= e < edges.len() ==> (#[trigger] edges[e]).0 < n && edges[e].1 < n
}

/// The edge counts of a partition, edge by edge.
pub open spec fn tally(edges: Seq<(usize, usize)>, labels: Seq<i8>) -> Counts
    decreases edges.len(),
{
    if edges.len() == 0 {
        Counts::zero()
    } else {
        let e = edges.last();
        tally(edges.drop_last(), labels).with_edge(labels[e.0 as int], labels[e.1 as int])
    }
}

/// The number of nodes that carry the label `value`.
pub open spec fn block_size(labels: Seq<i8>, value: i8) -> nat
    decreases labels.len(),
{
    if labels.len() == 0 {
        0
    } else {
        block_size(labels.drop_last(), value) + if labels.last() == value {
            1nat
        } else {
            0nat
        }
    }
}

/// How many of the nodes listed in `near` carry the label `value`.
pub open spec fn count_same(near: Seq<usize>, labels: Seq<i8>, value: i8) -> nat
    decreases near.len(),
{
    if near.len() == 0 {
        0
    } else {
        count_same(near.drop_last(), labels, value) + if labels[near.last() as int] == value {
            1nat
        } else {
            0nat
        }
    }
}

/// The change of the counts when a node labelled `label` with `same`
/// neighbours in its own block and `other` in the other block changes its
/// block: its `same` edges become crossing, its `other` edges stop crossing.
pub open spec fn shift(label: i8, same: int, other: int) -> Counts {
    if label == 0 {
        Counts { m00: -same, m11: other, m01: same - other }
    } else {
        Counts { m00: other, m11: -same, m01: same - other }
    }
}

/// The change of the edge counts if node `v` changed its block and every
/// other node kept its own. Every edge at `v` is taken as an edge to a
/// neighbour that stays where it is, an edge from `v` to itself included.
pub open spec fn impact(edges: Seq<(usize, usize)>, labels: Seq<i8>, v: usize) -> Counts {
    let near = far_ends(edges, v);
    let same = count_same(near, labels, labels[v as int]);
    shift(labels[v as int], same as int, near.len() - same)
}

/// The other label.
pub open spec fn other_label(label: i8) -> i8 {
    if label == 0 {
        1
    } else {
        0
    }
}

/// The partition with node `v` moved to the other block.
pub open spec fn flipped(labels: Seq<i8>, v: int) -> Seq<i8> {
    labels.update(v, other_label(labels[v]))
}

/// No edge joins `v` to itself.
pub open spec fn loop_free_at(edges: Seq<(usize, usize)>, v: usize) -> bool {
    forall|e: int| 0 <= e < edges.len() ==> !((#[trigger] edges[e]).0 == v && edges[e].1 == v)
}

/// No edge joins a node to itself.
pub open spec fn loop_free(edges: Seq<(usize, usize)>) -> bool {
    forall|e: int| 0 <= e < edges.len() ==> (#[trigger] edges[e]).0 != edges[e].1
}

/// Every edge is counted once: the three counts add up to the number of
/// edges, whatever the labels.
pub proof fn lemma_counts_conserved(edges: Seq<(usize, usize)>, labels: Seq<i8>)
    ensures
        tally(edges, labels).total() == edges.len(),
        tally(edges, labels).m00 >= 0,
        tally(edges, labels).m11 >= 0,
        tally(edges, labels).m01 >= 0,
    decreases edges.len(),
{
    if edges.len() > 0 {
        lemma_counts_conserved(edges.drop_last(), labels);
    }
}

/// The two blocks of a partition hold all the nodes between them.
pub proof fn lemma_blocks_cover(labels: Seq<i8>)
    requires
        is_partition(labels),
    ensures
        block_size(labels, 0) + block_size(labels, 1) == labels.len(),
    decreases labels.len(),
{
    if labels.len() > 0 {
        lemma_blocks_cover(labels.drop_last());
    }
}

/// A change of block moves edges between the counts and neither adds nor
/// removes one.
pub proof fn lemma_impact_conserves(edges: Seq<(usize, usize)>, labels: Seq<i8>, v: usize)
    ensures
        impact(edges, labels, v).total() == 0,
{
}

/// The far ends of the edges at a node are nodes, and there are no more of
/// them than edges.
pub proof fn lemma_far_ends_within(edges: Seq<(usize, usize)>, v: usize, n: nat)
    requires
        edges_within(edges, n),
    ensures
        far_ends(edges, v).len() <= edges.len(),
        forall|i: int| 0 <= i < far_ends(edges, v).len() ==> #[trigger] far_ends(edges, v)[i] < n,
    decreases edges.len(),
{
    if edges.len() > 0 {
        let front = edges.drop_last();
        assert forall|e: int| 0 <= e < front.len() implies (#[trigger] front[e]).0 < n && front[e].1
            < n by {
            assert(front[e] == edges[e]);
        }
        lemma_far_ends_within(front, v, n);
        assert(edges.last() == edges[edges.len() - 1]);
    }
}

proof fn lemma_count_same_bound(near: Seq<usize>, labels: Seq<i8>, value: i8)
    ensures
        count_same(near, labels, value) <= near.len(),
    decreases near.len(),
{
    if near.len() > 0 {
        lemma_count_same_bound(near.drop_last(), labels, value);
    }
}

proof fn lemma_count_same_remove(near: Seq<usize>, labels: Seq<i8>, value: i8, j: int)
    requires
        0 <= j < near.len(),
    ensures
        count_same(near, labels, value) == count_same(near.remove(j), labels, value) + if labels[near[j] as int]
            == value {
            1nat
        } else {
            0nat
        },
    decreases near.len(),
{
    if j == near.len() - 1 {
        assert(near.remove(j) =~= near.drop_last());
    } else {
        lemma_count_same_remove(near.drop_last(), labels, value, j);
        assert(near.remove(j).drop_last() =~= near.drop_last().remove(j));
        assert(near.remove(j).last() == near.last());
    }
}

/// The order of a list of nodes does not matter to the count.
proof fn lemma_count_same_unordered(a: Seq<usize>, b: Seq<usize>, labels: Seq<i8>, value: i8)
    requires
        a.to_multiset() == b.to_multiset(),
    ensures
        count_same(a, labels, value) == count_same(b, labels, value),
        a.len() == b.len(),
    decreases a.len(),
{
    to_multiset_len(a);
    to_multiset_len(b);
    if a.len() > 0 {
        let x = a.last();
        let front = a.drop_last();
        assert(a =~= front.push(x));
        to_multiset_build(front, x);
        to_multiset_contains(b, x);
        assert(a.to_multiset().count(x) > 0);
        let j = choose|j: int| 0 <= j < b.len() && b[j] == x;
        to_multiset_remove(b, j);
        assert(front.to_multiset() =~= b.remove(j).to_multiset());
        lemma_count_same_unordered(front, b.remove(j), labels, value);
        lemma_count_same_remove(b, labels, value, j);
    }
}

proof fn lemma_count_same_push(near: Seq<usize>, x: usize, labels: Seq<i8>, value: i8)
    ensures
        count_same(near.push(x), labels, value) == count_same(near, labels, value) + if labels[x as int]
            == value {
            1nat
        } else {
            0nat
        },
{
    assert(near.push(x).drop_last() =~= near);
}

/// Changing the block of a node takes it out of one block and puts it into
/// the other.
pub proof fn lemma_flip_block_sizes(labels: Seq<i8>, v: int)
    requires
        is_partition(labels),
        0 <= v < labels.len(),
    ensures
        is_partition(flipped(labels, v)),
        block_size(flipped(labels, v), labels[v]) == block_size(labels, labels[v]) - 1,
        block_size(flipped(labels, v), other_label(labels[v])) == block_size(
            labels,
            other_label(labels[v]),
        ) + 1,
    decreases labels.len(),
{
    let after = flipped(labels, v);
    if v == labels.len() - 1 {
        assert(after.drop_last() =~= labels.drop_last());
    } else {
        lemma_flip_block_sizes(labels.drop_last(), v);
        assert(after.drop_last() =~= flipped(labels.drop_last(), v));
    }
}

/// The counts kept up to date agree with the counts taken afresh: for a node
/// without an edge to itself, the edge counts of the partition with that
/// node in the other block are the present counts plus the impact of the
/// move.
pub proof fn lemma_flip_agrees(edges: Seq<(usize, usize)>, labels: Seq<i8>, v: usize)
    requires
        is_partition(labels),
        v < labels.len(),
        edges_within(edges, labels.len()),
        loop_free_at(edges, v),
    ensures
        tally(edges, flipped(labels, v as int)) == tally(edges, labels).plus(
            impact(edges, labels, v),
        ),
    decreases edges.len(),
{
    let after = flipped(labels, v as int);
    if edges.len() > 0 {
        let front = edges.drop_last();
        let e = edges.last();
        assert(e == edges[edges.len() - 1]);
        assert forall|k: int| 0 <= k < front.len() implies (#[trigger] front[k]).0 < labels.len()
            && front[k].1 < labels.len() && !(front[k].0 == v && front[k].1 == v) by {
            assert(front[k] == edges[k]);
        }
        lemma_flip_agrees(front, labels, v);
        let near = far_ends(front, v);
        lemma_count_same_bound(near, labels, labels[v as int]);
        if e.0 == v {
            lemma_count_same_push(near, e.1, labels, labels[v as int]);
        } else if e.1 == v {
            lemma_count_same_push(near, e.0, labels, labels[v as int]);
        }
        let got = tally(edges, after);
        let want = tally(edges, labels).plus(impact(edges, labels, v));
        assert(got.m00 == want.m00);
        assert(got.m11 == want.m11);
        assert(got.m01 == want.m01);
    }
}

/// The statistics of a partition as the search keeps them.
#[derive(Debug, Clone, Copy, PartialEq, Eq)]
pub struct Stats {
    pub m00: i64,
    pub m11: i64,
    pub m01: i64,
    pub n0: usize,
    pub n1: usize,
}

impl Stats {
    pub open spec fn counts(self) -> Counts {
        Counts { m00: self.m00 as int, m11: self.m11 as int, m01: self.m01 as int }
    }
}

/// Counts the statistics of a partition afresh, with one pass over the
/// nodes and one over the edges.
pub fn count_statistics(g: &GraphWrapper, labels: &Vec<i8>) -> (stats: Stats)
    requires
        g.wf(),
        labels@.len() == g@.ids.len(),
        is_partition(labels@),
    ensures
        stats.counts() == tally(g@.edges, labels@),
        stats.n0 == block_size(labels@, 0),
        stats.n1 == block_size(labels@, 1),
{
    let mut n0: usize = 0;
    let mut i: usize = 0;
    assert(labels@.take(0) =~= Seq::empty());
    while i < labels.len()
        invariant
            i <= labels@.len(),
            n0 <= i,
            n0 == block_size(labels@.take(i as int), 0),
        decreases labels.len() - i,
    {
        assert(labels@.take(i + 1).drop_last() =~= labels@.take(i as int));
        if labels[i] == 0 {
            n0 = n0 + 1;
        }
        i = i + 1;
    }
    assert(labels@.take(i as int) =~= labels@);
    proof {
        lemma_blocks_cover(labels@);
    }
    let n1 = labels.len() - n0;

    let m = g.edge_count();
    let mut m00: i64 = 0;
    let mut m11: i64 = 0;
    let mut m01: i64 = 0;
    let mut e: usize = 0;
    assert(g@.edges.take(0) =~= Seq::empty());
    while e < m
        invariant
            e <= m,
            m == g@.edges.len(),
            m <= GRAPH_LIMIT,
            g.wf(),
            labels@.len() == g@.ids.len(),
            0 <= m00 <= e,
            0 <= m11 <= e,
            0 <= m01 <= e,
            (Counts { m00: m00 as int, m11: m11 as int, m01: m01 as int }) == tally(
                g@.edges.take(e as int),
                labels@,
            ),
        decreases m - e,
    {
        assert(g@.edges.take(e + 1).drop_last() =~= g@.edges.take(e as int));
        let (u, v) = g.edge_endpoints(e);
        let group_u = labels[u];
        let group_v = labels[v];
        if group_u == group_v {
            if group_u == 0 {
                m00 = m00 + 1;
            } else {
                m11 = m11 + 1;
            }
        } else {
            m01 = m01 + 1;
        }
        e = e + 1;
    }
    assert(g@.edges.take(e as int) =~= g@.edges);
    Stats { m00, m11, m01, n0, n1 }
}

/// The change of the edge counts `(m00, m11, m01)` if `node` changed its
/// block, found from the neighbours of `node` alone.
pub fn compute_move_impact(g: &GraphWrapper, current_partition: &Vec<i8>, node: usize) -> (delta: (
    i64,
    i64,
    i64,
))
    requires
        g.wf(),
        current_partition@.len() == g@.ids.len(),
        is_partition(current_partition@),
        node < g@.ids.len(),
    ensures
        (Counts { m00: delta.0 as int, m11: delta.1 as int, m01: delta.2 as int }) == impact(
            g@.edges,
            current_partition@,
            node,
        ),
        -GRAPH_LIMIT <= delta.0 <= GRAPH_LIMIT,
        -GRAPH_LIMIT <= delta.1 <= GRAPH_LIMIT,
        -GRAPH_LIMIT <= delta.2 <= GRAPH_LIMIT,
{
    let orig_group = current_partition[node];
    let near = g.neighbors(node);
    let ghost ends = far_ends(g@.edges, node);
    proof {
        lemma_far_ends_within(g@.edges, node, g@.ids.len());
        lemma_count_same_unordered(near@, ends, current_partition@, orig_group);
        assert forall|k: int| 0 <= k < near@.len() implies (#[trigger] near@[k]) < g@.ids.len() by {
            to_multiset_contains(near@, near@[k]);
            to_multiset_contains(ends, near@[k]);
            assert(near@.contains(near@[k]));
            let j = choose|j: int| 0 <= j < ends.len() && ends[j] == near@[k];
            assert(ends[j] < g@.ids.len());
        }
    }
    let mut same: i64 = 0;
    let mut other: i64 = 0;
    let mut k: usize = 0;
    assert(near@.take(0) =~= Seq::empty());
    while k < near.len()
        invariant
            k <= near@.len(),
            near@.len() <= GRAPH_LIMIT,
            current_partition@.len() == g@.ids.len(),
            forall|j: int| 0 <= j < near@.len() ==> (#[trigger] near@[j]) < g@.ids.len(),
            0 <= same,
            0 <= other,
            same + other == k,
            same == count_same(near@.take(k as int), current_partition@, orig_group),
        decreases near.len() - k,
    {
        assert(near@.take(k + 1).drop_last() =~= near@.take(k as int));
        if current_partition[near[k]] == orig_group {
            same = same + 1;
        } else {
            other = other + 1;
        }
        k = k + 1;
    }
    assert(near@.take(k as int) =~= near@);
    if orig_group == 0 {
        (-same, other, same - other)
    } else {
        (other, -same, same - other)
    }
}

} // verus!
