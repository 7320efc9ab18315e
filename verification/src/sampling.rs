//! Drawing a node at random. The random stream is a `rand` generator that
//! the caller seeds and owns; of what it gives, nothing is known here but
//! the range.

use crate::adjacency::graph_order;
use petgraph::graph::Graph;
use petgraph::Undirected;
use rand::rngs::StdRng;
use rand::seq::IteratorRandom;
use vstd::prelude::*;

verus! {

/// `rand::rngs::StdRng`, carried as a value whose inside is not looked at.
#[verifier::external_type_specification]
#[verifier::external_body]
pub struct ExStdRng(StdRng);

/// `IteratorRandom::choose` on `Graph::node_indices`: one of the node
/// indices `0 .. graph_order(g)`, and nothing exactly when there is no node.
/// Which index comes depends on the state of the generator, so two calls
/// need not agree.
#[verifier::external_body]
pub(crate) fn choose_node(g: &Graph<(), (), Undirected, u32>, rng: &mut StdRng) -> (picked: Option<
    usize,
>)
    ensures
        picked is None <==> graph_order(*g) == 0,
        picked matches Some(i) ==> i < graph_order(*g),
{
    g.node_indices().choose(rng).map(|i| i.index())
}

} // verus!
