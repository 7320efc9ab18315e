//! Core-periphery detection on an undirected graph: a graph store, the
//! edge-count bookkeeping of single-node label flips, the integer outline of
//! the description-length objective and the annealing state machine.

pub mod adjacency;
pub mod anneal;
pub mod graph;
pub mod objective;
pub mod rank;
pub mod sampling;
pub mod tally;
