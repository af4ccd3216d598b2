//! Directed graphs.
pub mod generator;
pub mod graph;
