//! Payment routing over a fee-based channel graph.
//!
//! The crate holds the graph model, the routing strategies (direct,
//! shortest path, scored) and the router that dispatches between them.
//! Every function is verified against the contract written on it.

pub mod algorithms;
pub mod graph;
pub mod methods;
pub mod plugin;
pub mod router;
pub mod search;
pub mod strategy;
