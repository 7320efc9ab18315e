//! The adjacency structure. The graph itself lives in a `petgraph` graph;
//! this module names what such a graph holds and gives each operation the
//! library uses a contract over those names. Nothing here is proved: the
//! contracts restate what the `petgraph` source shows.

use petgraph::graph::{EdgeIndex, Graph, NodeIndex};
use petgraph::Undirected;
use vstd::prelude::*;

verus! {

/// `petgraph::graph::Graph`, carried as a value whose inside is not looked
/// at: what it holds is named by `graph_edges` and `graph_order`.
#[verifier::external_type_specification]
#[verifier::external_body]
#[verifier::reject_recursive_types(N)]
#[verifier::reject_recursive_types(E)]
#[verifier::reject_recursive_types(Ty)]
#[verifier::reject_recursive_types(Ix)]
pub struct ExGraph<N, E, Ty, Ix>(Graph<N, E, Ty, Ix>);

/// `petgraph::Undirected`, the marker of graphs whose edges have no
/// direction.
#[verifier::external_type_specification]
#[verifier::external_body]
pub struct ExUndirected(Undirected);

/// The edges of a graph in the order in which they were added, each as the
/// pair of node indices it was added with.
pub uninterp spec fn graph_edges(g: Graph<(), (), Undirected, u32>) -> Seq<(usize, usize)>;

/// The number of nodes of a graph. Nodes are indexed `0 .. graph_order(g)`.
pub uninterp spec fn graph_order(g: Graph<(), (), Undirected, u32>) -> nat;

/// The largest number of nodes, and of edges, that a graph indexed by `u32`
/// takes: one index value is kept back as an end marker.
pub const GRAPH_LIMIT: usize = 0xffff_ffff;

/// `Graph::new_undirected`: a graph without nodes or edges.
#[verifier::external_body]
pub(crate) fn empty_graph() -> (g: Graph<(), (), Undirected, u32>)
    ensures
        graph_order(g) == 0,
        graph_edges(g) == Seq::<(usize, usize)>::empty(),
{
    Graph::new_undirected()
}

/// `Graph::node_count`.
#[verifier::external_body]
pub(crate) fn order(g: &Graph<(), (), Undirected, u32>) -> (n: usize)
    ensures
        n == graph_order(*g),
{
    g.node_count()
}

/// `Graph::edge_count`.
#[verifier::external_body]
pub(crate) fn size(g: &Graph<(), (), Undirected, u32>) -> (m: usize)
    ensures
        m == graph_edges(*g).len(),
{
    g.edge_count()
}

/// `Graph::add_node`: the new node gets the next free index and no edge
/// changes. The call panics on a graph that already holds `GRAPH_LIMIT`
/// nodes, so such a graph is left out.
#[verifier::external_body]
pub(crate) fn grow(g: &mut Graph<(), (), Undirected, u32>) -> (index: usize)
    requires
        graph_order(*old(g)) < GRAPH_LIMIT,
    ensures
        index == graph_order(*old(g)),
        graph_order(*final(g)) == graph_order(*old(g)) + 1,
        graph_edges(*final(g)) == graph_edges(*old(g)),
{
    g.add_node(()).index()
}

/// `Graph::add_edge`: the edge is added behind the others and no node
/// changes. The call panics when an end point is no node of the graph or
/// when the graph already holds `GRAPH_LIMIT` edges; both are left out.
#[verifier::external_body]
pub(crate) fn link(g: &mut Graph<(), (), Undirected, u32>, a: usize, b: usize)
    requires
        a < graph_order(*old(g)),
        b < graph_order(*old(g)),
        graph_edges(*old(g)).len() < GRAPH_LIMIT,
    ensures
        graph_order(*final(g)) == graph_order(*old(g)),
        graph_edges(*final(g)) == graph_edges(*old(g)).push((a, b)),
{
    g.add_edge(NodeIndex::new(a), NodeIndex::new(b), ());
}

/// `Graph::edge_endpoints` of the edge added as number `e`.
#[verifier::external_body]
pub(crate) fn endpoints(g: &Graph<(), (), Undirected, u32>, e: usize) -> (ends: Option<(usize, usize)>)
    requires
        e < graph_edges(*g).len(),
    ensures
        ends == Some(graph_edges(*g)[e as int]),
{
    g.edge_endpoints(EdgeIndex::new(e)).map(|p| (p.0.index(), p.1.index()))
}

/// The far ends of the edges at node `v`, in the order of the edges: an edge
/// added as `(v, b)` gives `b`, one added as `(a, v)` with `a != v` gives `a`.
/// An edge from `v` to itself is listed once.
pub open spec fn far_ends(edges: Seq<(usize, usize)>, v: usize) -> Seq<usize>
    decreases edges.len(),
{
    if edges.len() == 0 {
        Seq::empty()
    } else {
        let rest = far_ends(edges.drop_last(), v);
        let e = edges.last();
        if e.0 == v {
            rest.push(e.1)
        } else if e.1 == v {
            rest.push(e.0)
        } else {
            rest
        }
    }
}

/// `Graph::neighbors`, collected: for an undirected graph the far end of
/// every edge at `a`, an edge from `a` to itself counted once. The order in
/// which they come is left open, so the contract speaks of them as a
/// multiset.
#[verifier::external_body]
pub(crate) fn neighbours(g: &Graph<(), (), Undirected, u32>, a: usize) -> (near: Vec<usize>)
    requires
        a < graph_order(*g),
    ensures
        near@.to_multiset() == far_ends(graph_edges(*g), a).to_multiset(),
{
    g.neighbors(NodeIndex::new(a)).map(|n| n.index()).collect()
}

} // verus!
