use ping_pong::console_arguments::MultiplicationMethod;
use ping_pong::graph::graph::Graph;
use ping_pong::matrix::matrix::{Matrix, MultiplyError};
use ping_pong::ping_pong::ping_pong_solver::PingPongSolver;

const METHODS: [MultiplicationMethod; 3] =
    [MultiplicationMethod::Naive, MultiplicationMethod::Strassen, MultiplicationMethod::Mixed];

fn graph_of(size: usize, edges: &[(usize, usize)]) -> Graph {
    let mut m = Matrix::new(size, size);
    for &(from, to) in edges {
        m.set(from, to, 1).unwrap();
    }
    Graph::new(m)
}

fn complete(size: usize) -> Graph {
    let mut m = Matrix::new(size, size);
    for c in 0..size {
        for r in 0..size {
            if c != r {
                m.set(c, r, 1).unwrap();
            }
        }
    }
    Graph::new(m)
}

#[test]
fn complete_graph_has_every_vertex() {
    for size in [0usize, 1, 2, 5, 40] {
        let expected: Vec<usize> = (0..size).collect();
        for method in METHODS {
            assert_eq!(PingPongSolver::new(method).solve(&complete(size)), Ok(expected.clone()));
        }
    }
}

#[test]
fn column_is_the_source_and_row_the_target() {
    // 0 -> 2, 1 -> 2: vertex 2 is reached by both others, and reaches none.
    let g = graph_of(3, &[(0, 2), (1, 2)]);
    for method in METHODS {
        assert_eq!(PingPongSolver::new(method).solve(&g), Ok(vec![2]));
    }
    assert_eq!(g.adj_matrix.get(0, 2), Ok(1));
    assert_eq!(g.adj_matrix.get(2, 0), Ok(0));
}

#[test]
fn a_path_of_two_edges_counts() {
    // 0 -> 1 -> 2: vertex 2 is reached by 1 directly and by 0 over 1.
    let g = graph_of(3, &[(0, 1), (1, 2)]);
    for method in METHODS {
        assert_eq!(PingPongSolver::new(method).solve(&g), Ok(vec![2]));
    }
}

#[test]
fn a_path_of_three_edges_does_not_count() {
    // 0 -> 1 -> 2 -> 3: vertex 0 needs three edges to reach 3.
    let g = graph_of(4, &[(0, 1), (1, 2), (2, 3)]);
    for method in METHODS {
        assert_eq!(PingPongSolver::new(method).solve(&g), Ok(Vec::new()));
    }
}

#[test]
fn a_cycle_of_three_has_every_vertex() {
    let g = graph_of(3, &[(0, 1), (1, 2), (2, 0)]);
    for method in METHODS {
        assert_eq!(PingPongSolver::new(method).solve(&g), Ok(vec![0, 1, 2]));
    }
}

#[test]
fn an_isolated_vertex_is_left_out() {
    // vertex 1 has no edge; the others form a cycle of two.
    let g = graph_of(3, &[(0, 2), (2, 0)]);
    for method in METHODS {
        assert_eq!(PingPongSolver::new(method).solve(&g), Ok(Vec::new()));
    }
    let h = graph_of(4, &[(0, 2), (2, 0), (3, 0), (3, 2), (0, 3)]);
    for method in METHODS {
        let found = PingPongSolver::new(method).solve(&h).unwrap();
        assert!(!found.contains(&1));
    }
}

#[test]
fn the_only_vertex_qualifies() {
    let g = graph_of(1, &[]);
    for method in METHODS {
        assert_eq!(PingPongSolver::new(method).solve(&g), Ok(vec![0]));
    }
}

#[test]
fn weights_other_than_one_are_edges() {
    let mut m = Matrix::new(2, 2);
    m.set(0, 1, -7).unwrap();
    let g = Graph::new(m);
    for method in METHODS {
        assert_eq!(PingPongSolver::new(method).solve(&g), Ok(vec![1]));
    }
}

#[test]
fn a_matrix_that_is_not_square_is_rejected() {
    let g = Graph::new(Matrix::new(3, 2));
    for method in METHODS {
        assert_eq!(PingPongSolver::new(method).solve(&g), Err(MultiplyError::DimensionMismatch));
    }
}

#[test]
fn methods_agree_on_a_larger_graph() {
    let size = 45usize;
    let mut m = Matrix::new(size, size);
    let mut x: u32 = 12345;
    for c in 0..size {
        for r in 0..size {
            x = x.wrapping_mul(1664525).wrapping_add(1013904223);
            if c != r && (x >> 24) % 4 == 0 {
                m.set(c, r, 1).unwrap();
            }
        }
    }
    let g = Graph::new(m);
    let expected = PingPongSolver::new(MultiplicationMethod::Naive).solve(&g).unwrap();
    assert_eq!(PingPongSolver::new(MultiplicationMethod::Strassen).solve(&g).unwrap(), expected);
    assert_eq!(PingPongSolver::new(MultiplicationMethod::Mixed).solve(&g).unwrap(), expected);
    let again = PingPongSolver::new(MultiplicationMethod::Mixed).solve(&g).unwrap();
    assert_eq!(again, expected);
    let mut sorted = expected.clone();
    sorted.sort();
    sorted.dedup();
    assert_eq!(sorted, expected);
}
