//! Finds the vertices of a directed graph that every other vertex reaches by
//! one or two edges, by squaring the adjacency matrix of the graph.
//!
//! The crate holds a dense matrix, three interchangeable ways to multiply
//! square matrices, and the solver that reads the squared adjacency matrix.
//! Around them it holds what a program needs to read graphs from text, to
//! write graphs and answers as text, and to make graphs from a list of
//! choices.
pub mod console_arguments;
pub mod data_parser;
pub mod graph;
pub mod matrix;
pub mod output;
pub mod ping_pong;
pub mod ping_pong_arguments;
