//! Per-edge classification of typed graphlets.
//!
//! Given an undirected graph whose nodes carry dense integer type labels,
//! this library classifies, for one edge at a time, every connected
//! subgraph of up to four nodes ("graphlet") that the edge participates
//! in, broken down by the type labels of the participating nodes.
//! Results are keyed by a mixed-radix perfect hash of the label tuple and
//! the graphlet kind, and accumulated in a dense counter that supports a
//! commutative, associative merge.

pub mod adjacency_graph;
pub mod edge_typed_graphlets;
pub mod graph;
pub mod graphlet_counter;
pub mod graphlet_set;
pub mod neighbourhoods;
pub mod orbits;
pub mod perfect_graphlet_hash;
pub mod perfect_hash;
pub mod quadruple_perfect_hash;
pub mod random_graph;
pub mod utils;

pub use utils::binomial_two;
pub use utils::integer_power;
