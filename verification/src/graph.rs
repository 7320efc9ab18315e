//! The graph store: nodes known by an outside identifier and a dense index,
//! undirected edges between indices, and a label in {0, 1} for the nodes
//! that have been given one.

use crate::adjacency::{
    empty_graph, endpoints, far_ends, graph_edges, graph_order, grow, link, neighbours, order,
    size, GRAPH_LIMIT,
};
use crate::sampling::choose_node;
use petgraph::graph::Graph;
use petgraph::Undirected;
use rand::rngs::StdRng;
use std::collections::HashMap;
use vstd::prelude::*;

verus! {

broadcast use vstd::std_specs::hash::group_hash_axioms;

/// A label slot holds no label yet, or one of the two block labels.
pub open spec fn is_label_slot(slot: Option<i8>) -> bool {
    slot matches Some(l) ==> l == 0 || l == 1
}

/// What a graph store holds.
pub struct GraphModel {
    /// The outside identifier of each node, by index, in first-seen order.
    pub ids: Seq<i32>,
    /// The edges in the order they were added, as pairs of node indices.
    pub edges: Seq<(usize, usize)>,
    /// The label of each node, by index, where it has one.
    pub labels: Seq<Option<i8>>,
}

impl GraphModel {
    pub open spec fn empty() -> GraphModel {
        GraphModel { ids: Seq::empty(), edges: Seq::empty(), labels: Seq::empty() }
    }

    /// No identifier occurs twice, every node has a label slot, every edge
    /// joins two nodes and every label is 0 or 1.
    pub open spec fn valid(self) -> bool {
        &&& self.ids.no_duplicates()
        &&& self.labels.len() == self.ids.len()
        &&& forall|e: int|
            0 <= e < self.edges.len() ==> (#[trigger] self.edges[e]).0 < self.ids.len()
                && self.edges[e].1 < self.ids.len()
        &&& forall|i: int| 0 <= i < self.labels.len() ==> is_label_slot(#[trigger] self.labels[i])
    }

    pub open spec fn has(self, id: i32) -> bool {
        self.ids.contains(id)
    }

    /// The index of the node known as `id`.
    pub open spec fn index(self, id: i32) -> int {
        self.ids.index_of(id)
    }

    /// The store once `id` has been seen: a new identifier gets the next
    /// index and no label.
    pub open spec fn with_node(self, id: i32) -> GraphModel {
        if self.has(id) {
            self
        } else {
            GraphModel { ids: self.ids.push(id), edges: self.edges, labels: self.labels.push(None) }
        }
    }

    /// The store after one more edge between the nodes known as `u` and `v`.
    pub open spec fn with_edge(self, u: i32, v: i32) -> GraphModel {
        let seen = self.with_node(u).with_node(v);
        GraphModel {
            ids: seen.ids,
            edges: seen.edges.push((seen.index(u) as usize, seen.index(v) as usize)),
            labels: seen.labels,
        }
    }

    /// The store after the edges `pairs`, added from first to last.
    pub open spec fn with_edges(self, pairs: Seq<(i32, i32)>) -> GraphModel
        decreases pairs.len(),
    {
        if pairs.len() == 0 {
            self
        } else {
            self.with_edges(pairs.drop_last()).with_edge(pairs.last().0, pairs.last().1)
        }
    }

    /// The store after the node known as `id` was given `label`.
    pub open spec fn with_label(self, id: i32, label: i8) -> GraphModel {
        GraphModel {
            ids: self.ids,
            edges: self.edges,
            labels: self.labels.update(self.index(id), Some(label)),
        }
    }

    /// The store after the labels `entries`, given from first to last.
    pub open spec fn with_labels(self, entries: Seq<(i32, i8)>) -> GraphModel
        decreases entries.len(),
    {
        if entries.len() == 0 {
            self
        } else {
            self.with_labels(entries.drop_last()).with_label(
                entries.last().0,
                entries.last().1,
            )
        }
    }

    /// Each of the first `upto` entries names a node.
    pub open spec fn knows(self, entries: Seq<(i32, i8)>, upto: int) -> bool {
        forall|j: int| 0 <= j < upto ==> self.has((#[trigger] entries[j]).0)
    }

    /// Entry `i` is the first that names no node.
    pub open spec fn first_unknown(self, entries: Seq<(i32, i8)>, i: int) -> bool {
        &&& 0 <= i < entries.len()
        &&& !self.has(entries[i].0)
        &&& self.knows(entries, i)
    }

    /// The number of nodes labelled `value`.
    pub open spec fn labelled(self, value: i8) -> nat {
        count_slots(self.labels, value)
    }
}

/// Every entry gives the label 0 or the label 1.
pub open spec fn labels_in_range(entries: Seq<(i32, i8)>) -> bool {
    forall|i: int| 0 <= i < entries.len() ==> (#[trigger] entries[i]).1 == 0 || entries[i].1 == 1
}

/// How many of `slots` hold the label `value`.
pub open spec fn count_slots(slots: Seq<Option<i8>>, value: i8) -> nat
    decreases slots.len(),
{
    if slots.len() == 0 {
        0
    } else {
        count_slots(slots.drop_last(), value) + if slots.last() == Some(value) {
            1nat
        } else {
            0nat
        }
    }
}

/// Why a partition was refused.
#[derive(Debug, Clone, Copy, PartialEq, Eq)]
pub enum PartitionError {
    /// An entry names an identifier that no node of the graph has.
    UnknownNode(i32),
}

/// The graph store.
pub struct GraphWrapper {
    graph: Graph<(), (), Undirected, u32>,
    node_map: HashMap<i32, usize>,
    ids: Vec<i32>,
    partition: Vec<Option<i8>>,
}

impl View for GraphWrapper {
    type V = GraphModel;

    closed spec fn view(&self) -> GraphModel {
        GraphModel { ids: self.ids@, edges: graph_edges(self.graph), labels: self.partition@ }
    }
}

impl GraphWrapper {
    /// The parts of the store agree: the graph has one node per identifier
    /// and the identifier map is the inverse of the identifier list.
    pub closed spec fn coherent(&self) -> bool {
        &&& graph_order(self.graph) == self.ids@.len()
        &&& forall|id: i32| #[trigger] self.node_map@.contains_key(id) <==> self.ids@.contains(id)
        &&& forall|i: int|
            0 <= i < self.ids@.len() ==> self.node_map@[#[trigger] self.ids@[i]] == i
    }

    /// Well-formedness: what every constructor gives and every method keeps.
    pub open spec fn wf(&self) -> bool {
        &&& self.coherent()
        &&& self@.valid()
        &&& self@.ids.len() <= GRAPH_LIMIT
        &&& self@.edges.len() <= GRAPH_LIMIT
    }

    pub fn new() -> (g: GraphWrapper)
        ensures
            g.wf(),
            g@ == GraphModel::empty(),
    {
        let g = GraphWrapper {
            graph: empty_graph(),
            node_map: HashMap::new(),
            ids: Vec::new(),
            partition: Vec::new(),
        };
        assert(g@.ids =~= Seq::empty());
        assert(g@.labels =~= Seq::empty());
        g
    }

    pub fn node_count(&self) -> (n: usize)
        requires
            self.wf(),
        ensures
            n == self@.ids.len(),
    {
        order(&self.graph)
    }

    /// Looks `id` up, giving it the next index if it is new.
    fn intern(&mut self, id: i32) -> (index: usize)
        requires
            old(self).wf(),
            old(self)@.with_node(id).ids.len() <= GRAPH_LIMIT,
        ensures
            final(self).wf(),
            final(self)@ == old(self)@.with_node(id),
            index == final(self)@.index(id),
            index < final(self)@.ids.len(),
            final(self)@.ids[index as int] == id,
    {
        let found = match self.node_map.get(&id) {
            Some(i) => Some(*i),
            None => None,
        };
        match found {
            Some(i) => {
                proof {
                    let j = self@.ids.index_of(id);
                    assert(self@.ids[j] == id);
                }
                i
            },
            None => {
                let ghost before = *self;
                let i = grow(&mut self.graph);
                self.node_map.insert(id, i);
                self.ids.push(id);
                self.partition.push(None);
                proof {
                    let ids = self@.ids;
                    assert(ids == before@.ids.push(id));
                    assert(ids[i as int] == id);
                    assert forall|k: i32| #[trigger]
                        self.node_map@.contains_key(k) <==> ids.contains(k) by {
                        if before@.ids.contains(k) {
                            let j = before@.ids.index_of(k);
                            assert(ids[j] == k);
                        }
                        if ids.contains(k) && k != id {
                            let j = ids.index_of(k);
                            assert(before@.ids[j] == k);
                        }
                    }
                    assert forall|j: int| 0 <= j < ids.len() implies self.node_map@[#[trigger] ids[j]] == j by {
                        if j < before@.ids.len() {
                            assert(before@.ids[j] == ids[j]);
                            assert(before@.ids.contains(ids[j]));
                        }
                    }
                    assert(ids.no_duplicates()) by {
                        assert forall|a: int, b: int|
                            0 <= a < ids.len() && 0 <= b < ids.len() && a != b implies ids[a]
                            != ids[b] by {
                            if a < before@.ids.len() {
                                assert(before@.ids.contains(ids[a]));
                            }
                            if b < before@.ids.len() {
                                assert(before@.ids.contains(ids[b]));
                            }
                        }
                    }
                    let w = ids.index_of(id);
                    assert(ids[w] == id);
                }
                i
            },
        }
    }

    /// Whether the store is sure to take `count` more edges: each edge adds
    /// at most two nodes.
    pub fn has_room_for(&self, count: usize) -> (roomy: bool)
        requires
            self.wf(),
        ensures
            roomy == (self@.ids.len() + 2 * count <= GRAPH_LIMIT && self@.edges.len() + count
                <= GRAPH_LIMIT),
            roomy ==> forall|pairs: Seq<(i32, i32)>|
                pairs.len() == count ==> (#[trigger] self@.with_edges(pairs)).ids.len()
                    <= GRAPH_LIMIT,
    {
        let nodes = order(&self.graph);
        let edges = size(&self.graph);
        let limit: u64 = GRAPH_LIMIT as u64;
        let roomy = count <= GRAPH_LIMIT && nodes as u64 + 2 * (count as u64) <= limit
            && edges as u64 + count as u64 <= limit;
        proof {
            if roomy {
                assert forall|pairs: Seq<(i32, i32)>| pairs.len() == count implies (
                #[trigger] self@.with_edges(pairs)).ids.len() <= GRAPH_LIMIT by {
                    lemma_nodes_added(self@, pairs);
                }
            }
        }
        roomy
    }

    /// Adds one edge per pair, in order. An identifier not seen before
    /// becomes a new node with the next index; nothing is removed and no
    /// edge is merged with another. A graph takes at most `GRAPH_LIMIT`
    /// nodes and as many edges.
    pub fn add_edges(&mut self, py_edges: Vec<(i32, i32)>)
        requires
            old(self).wf(),
            old(self)@.with_edges(py_edges@).ids.len() <= GRAPH_LIMIT,
            old(self)@.edges.len() + py_edges@.len() <= GRAPH_LIMIT,
        ensures
            final(self).wf(),
            final(self)@ == old(self)@.with_edges(py_edges@),
    {
        let ghost start = self@;
        let mut k: usize = 0;
        assert(py_edges@.take(0) =~= Seq::empty());
        while k < py_edges.len()
            invariant
                k <= py_edges.len(),
                self.wf(),
                self@ == start.with_edges(py_edges@.take(k as int)),
                start.with_edges(py_edges@).ids.len() <= GRAPH_LIMIT,
                start.edges.len() + py_edges@.len() <= GRAPH_LIMIT,
                self@.edges.len() == start.edges.len() + k,
            decreases py_edges.len() - k,
        {
            let (u, v) = py_edges[k];
            proof {
                let next = py_edges@.take(k + 1);
                assert(next.drop_last() =~= py_edges@.take(k as int));
                assert(next.last() == (u, v));
                lemma_prefix_nodes(start, py_edges@, k + 1);
                lemma_with_node_grows(self@, u);
                lemma_with_node_grows(self@.with_node(u), v);
            }
            let iu = self.intern(u);
            let ghost mid = self@;
            let iv = self.intern(v);
            proof {
                assert(self@ == mid.with_node(v));
                assert(self@.ids[iu as int] == mid.ids[iu as int]);
                assert(self@.ids.contains(u));
                let j = self@.ids.index_of(u);
                assert(self@.ids[j] == u);
            }
            link(&mut self.graph, iu, iv);
            k = k + 1;
        }
        assert(py_edges@.take(k as int) =~= py_edges@);
    }

    /// Gives the nodes named in `entries` their labels, from first to last,
    /// so that a later entry for a node overrides an earlier one. If an entry
    /// names an identifier that is no node, nothing is changed and the first
    /// such identifier is reported.
    pub fn set_partition(&mut self, entries: &Vec<(i32, i8)>) -> (outcome: Result<
        (),
        PartitionError,
    >)
        requires
            old(self).wf(),
            labels_in_range(entries@),
        ensures
            final(self).wf(),
            match outcome {
                Ok(_) => {
                    &&& old(self)@.knows(entries@, entries@.len() as int)
                    &&& final(self)@ == old(self)@.with_labels(entries@)
                },
                Err(PartitionError::UnknownNode(id)) => {
                    &&& exists|i: int| #[trigger]
                        old(self)@.first_unknown(entries@, i) && entries@[i].0 == id
                    &&& final(self)@ == old(self)@
                },
            },
    {
        let mut slots: Vec<usize> = Vec::new();
        let mut k: usize = 0;
        while k < entries.len()
            invariant
                k <= entries.len(),
                self.wf(),
                *self == *old(self),
                slots@.len() == k,
                forall|j: int| 0 <= j < k ==> self@.has((#[trigger] entries@[j]).0),
                forall|j: int|
                    0 <= j < k ==> (#[trigger] slots@[j]) as int == self@.index(entries@[j].0),
            decreases entries.len() - k,
        {
            let id = entries[k].0;
            let found = match self.node_map.get(&id) {
                Some(i) => Some(*i),
                None => None,
            };
            match found {
                Some(i) => {
                    proof {
                        let j = self@.ids.index_of(id);
                        assert(self@.ids[j] == id);
                    }
                    slots.push(i);
                },
                None => {
                    assert(self@.first_unknown(entries@, k as int));
                    return Err(PartitionError::UnknownNode(id));
                },
            }
            k = k + 1;
        }
        let ghost start = self@;
        let mut k: usize = 0;
        assert(entries@.take(0) =~= Seq::empty());
        while k < entries.len()
            invariant
                k <= entries.len(),
                self.wf(),
                start == old(self)@,
                start.valid(),
                self@ == start.with_labels(entries@.take(k as int)),
                self@.ids == start.ids,
                slots@.len() == entries@.len(),
                forall|j: int| 0 <= j < entries@.len() ==> start.has((#[trigger] entries@[j]).0),
                forall|j: int|
                    0 <= j < entries@.len() ==> (#[trigger] slots@[j]) as int == start.index(
                        entries@[j].0,
                    ),
                labels_in_range(entries@),
            decreases entries.len() - k,
        {
            let label = entries[k].1;
            let slot = slots[k];
            proof {
                let next = entries@.take(k + 1);
                assert(next.drop_last() =~= entries@.take(k as int));
                assert(next.last() == entries@[k as int]);
                assert(start.has(entries@[k as int].0));
                let j = start.ids.index_of(entries@[k as int].0);
                assert(start.ids[j] == entries@[k as int].0);
            }
            self.partition.set(slot, Some(label));
            k = k + 1;
        }
        assert(entries@.take(k as int) =~= entries@);
        Ok(())
    }

    /// The number of nodes that carry the label `value`.
    pub fn count_partition_value(&self, value: i8) -> (n: usize)
        requires
            self.wf(),
        ensures
            n == self@.labelled(value),
    {
        let mut n: usize = 0;
        let mut k: usize = 0;
        assert(self.partition@.take(0) =~= Seq::empty());
        while k < self.partition.len()
            invariant
                k <= self.partition@.len(),
                n <= k,
                n == count_slots(self.partition@.take(k as int), value),
            decreases self.partition.len() - k,
        {
            proof {
                let next = self.partition@.take(k + 1);
                assert(next.drop_last() =~= self.partition@.take(k as int));
            }
            let hit = match self.partition[k] {
                Some(l) => l == value,
                None => false,
            };
            if hit {
                n = n + 1;
            }
            k = k + 1;
        }
        assert(self.partition@.take(k as int) =~= self.partition@);
        n
    }

    /// The label of the node with the given index, where it has one.
    pub fn label(&self, index: usize) -> (slot: Option<i8>)
        requires
            self.wf(),
            index < self@.ids.len(),
        ensures
            slot == self@.labels[index as int],
    {
        self.partition[index]
    }

    /// The outside identifier of the node with the given index.
    pub fn external_id(&self, index: usize) -> (id: i32)
        requires
            self.wf(),
            index < self@.ids.len(),
        ensures
            id == self@.ids[index as int],
    {
        self.ids[index]
    }

    /// The end points of the edge that was added as number `e`.
    pub fn edge_endpoints(&self, e: usize) -> (ends: (usize, usize))
        requires
            self.wf(),
            e < self@.edges.len(),
        ensures
            ends == self@.edges[e as int],
    {
        match endpoints(&self.graph, e) {
            Some(ends) => ends,
            None => (0, 0),
        }
    }

    /// Draws the index of a node from the random stream: one of the nodes,
    /// and nothing exactly when the graph has none.
    pub fn sample_node(&self, rng: &mut StdRng) -> (picked: Option<usize>)
        requires
            self.wf(),
        ensures
            picked is None <==> self@.ids.len() == 0,
            picked matches Some(i) ==> i < self@.ids.len(),
    {
        choose_node(&self.graph, rng)
    }

    /// The far end of every edge at the node with the given index, in no
    /// particular order.
    pub fn neighbors(&self, index: usize) -> (near: Vec<usize>)
        requires
            self.wf(),
            index < self@.ids.len(),
        ensures
            near@.to_multiset() == far_ends(self@.edges, index).to_multiset(),
    {
        neighbours(&self.graph, index)
    }

    pub fn edge_count(&self) -> (m: usize)
        requires
            self.wf(),
        ensures
            m == self@.edges.len(),
    {
        size(&self.graph)
    }
}

/// Seeing an identifier adds at most one node and keeps the others.
proof fn lemma_with_node_grows(m: GraphModel, id: i32)
    ensures
        m.ids.len() <= m.with_node(id).ids.len() <= m.ids.len() + 1,
        m.with_node(id).edges == m.edges,
{
}

/// The nodes only grow in number as edges are added.
proof fn lemma_prefix_nodes(m: GraphModel, pairs: Seq<(i32, i32)>, k: int)
    requires
        0 <= k <= pairs.len(),
    ensures
        m.with_edges(pairs.take(k)).ids.len() <= m.with_edges(pairs).ids.len(),
    decreases pairs.len(),
{
    if k == pairs.len() {
        assert(pairs.take(k) =~= pairs);
    } else {
        let front = pairs.drop_last();
        lemma_prefix_nodes(m, front, k);
        assert(front.take(k) =~= pairs.take(k));
        let mid = m.with_edges(front);
        lemma_with_node_grows(mid, pairs.last().0);
        lemma_with_node_grows(mid.with_node(pairs.last().0), pairs.last().1);
    }
}

/// Each edge adds at most two nodes, and no edge is lost or merged.
pub proof fn lemma_nodes_added(m: GraphModel, pairs: Seq<(i32, i32)>)
    ensures
        m.ids.len() <= m.with_edges(pairs).ids.len() <= m.ids.len() + 2 * pairs.len(),
        m.with_edges(pairs).edges.len() == m.edges.len() + pairs.len(),
    decreases pairs.len(),
{
    if pairs.len() > 0 {
        let mid = m.with_edges(pairs.drop_last());
        lemma_nodes_added(m, pairs.drop_last());
        lemma_with_node_grows(mid, pairs.last().0);
        lemma_with_node_grows(mid.with_node(pairs.last().0), pairs.last().1);
    }
}

/// Builds a graph from the edges and gives the number of its nodes: the
/// number of different identifiers among the end points.
pub fn build_graph(edges: Vec<(i32, i32)>) -> (nodes: usize)
    requires
        GraphModel::empty().with_edges(edges@).ids.len() <= GRAPH_LIMIT,
        edges@.len() <= GRAPH_LIMIT,
    ensures
        nodes == GraphModel::empty().with_edges(edges@).ids.len(),
{
    let mut g = GraphWrapper::new();
    g.add_edges(edges);
    g.node_count()
}

} // verus!
