//! Work distribution for left-hand Riemann sums: rectangle indices
//! striped round-robin over a fixed set of workers, with the partition
//! property proved, together with two small graph structures and a
//! breadth-first search over their adjacency lists.

pub mod edge;
pub mod graph;
pub mod graphlib;
pub mod partition;
mod rng;
