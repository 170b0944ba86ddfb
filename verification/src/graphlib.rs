pub mod bfs;
pub mod graph;
