//! A directed graph, given by its adjacency matrix.
use vstd::prelude::*;
use crate::matrix::grid::Grid;
use crate::matrix::matrix::Matrix;

verus! {

/// A directed graph. The element of `adj_matrix` in column `c` and row `r`
/// is other than zero where the graph has an edge from vertex `c` to vertex
/// `r`.
#[derive(Debug)]
pub struct Graph {
    /// The adjacency matrix.
    pub adj_matrix: Matrix<i32>,
}

impl View for Graph {
    type V = Grid<i32>;

    open spec fn view(&self) -> Grid<i32> {
        self.adj_matrix@
    }
}

/// The adjacency matrices of some graphs, in their order.
pub open spec fn views(graphs: Seq<Graph>) -> Seq<Grid<i32>> {
    Seq::new(graphs.len(), |i: int| graphs[i]@)
}

impl Graph {
    /// The graph with the given adjacency matrix.
    pub fn new(adj_matrix: Matrix<i32>) -> (graph: Self)
        ensures
            graph.adj_matrix == adj_matrix,
    {
        Graph { adj_matrix }
    }
}

} // verus!
