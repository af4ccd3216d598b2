use ping_pong::console_arguments::MultiplicationMethod;
use ping_pong::graph::generator::{generate_ping_pong, inverse_cantor};
use ping_pong::matrix::matrix::Matrix;
use ping_pong::ping_pong::ping_pong_solver::PingPongSolver;

#[test]
fn inverse_cantor_walks_the_diagonals() {
    assert_eq!(inverse_cantor(0), (0, 0));
    assert_eq!(inverse_cantor(1), (1, 0));
    assert_eq!(inverse_cantor(2), (0, 1));
    assert_eq!(inverse_cantor(3), (2, 0));
    assert_eq!(inverse_cantor(4), (1, 1));
    assert_eq!(inverse_cantor(5), (0, 2));
    assert_eq!(inverse_cantor(6), (3, 0));
    assert_eq!(inverse_cantor(9), (0, 3));
}

#[test]
fn inverse_cantor_inverts_the_pairing() {
    for z in (0..200000).chain([268435455, 2147450879, 2147450880, i32::MAX - 1, i32::MAX]) {
        let (x, y) = inverse_cantor(z);
        assert!(x >= 0 && y >= 0);
        let s = (x as i64) + (y as i64);
        assert_eq!(s * (s + 1) / 2 + y as i64, z as i64);
    }
}

#[test]
fn inverse_cantor_of_the_largest_number() {
    assert_eq!(inverse_cantor(i32::MAX), (32768, 32767));
    assert_eq!(inverse_cantor(2147450880), (65535, 0));
    assert_eq!(inverse_cantor(2147450879), (0, 65534));
}

#[test]
fn without_a_reversal_edges_run_to_the_lower_vertex() {
    let g = generate_ping_pong(3, &vec![false, false, false]);
    let expected = Matrix::with_data(vec![vec![0, 0, 0], vec![1, 0, 0], vec![1, 1, 0]]).unwrap();
    assert_eq!(g.adj_matrix, expected);
}

#[test]
fn a_reversal_turns_the_edge_of_its_pair() {
    // pair 0 is (2, 0), pair 1 is (1, 0), pair 2 is (2, 1)
    let first = generate_ping_pong(3, &vec![true, false, false]);
    assert_eq!(first.adj_matrix, Matrix::with_data(vec![vec![0, 0, 1], vec![1, 0, 0], vec![0, 1, 0]]).unwrap());
    let second = generate_ping_pong(3, &vec![false, true, false]);
    assert_eq!(second.adj_matrix, Matrix::with_data(vec![vec![0, 1, 0], vec![0, 0, 0], vec![1, 1, 0]]).unwrap());
    let third = generate_ping_pong(3, &vec![false, false, true]);
    assert_eq!(third.adj_matrix, Matrix::with_data(vec![vec![0, 0, 0], vec![1, 0, 1], vec![1, 0, 0]]).unwrap());
}

#[test]
fn small_sizes_have_no_pair() {
    assert_eq!(generate_ping_pong(0, &Vec::new()).adj_matrix, Matrix::new(0, 0));
    assert_eq!(generate_ping_pong(1, &Vec::new()).adj_matrix, Matrix::new(1, 1));
}

#[test]
fn every_pair_has_one_edge() {
    let size = 12usize;
    let pairs = size * (size - 1) / 2;
    let mut x: u32 = 99;
    let mut reversed: Vec<bool> = Vec::new();
    for _ in 0..pairs {
        x = x.wrapping_mul(1664525).wrapping_add(1013904223);
        reversed.push((x >> 20) % 3 == 0);
    }
    let g = generate_ping_pong(size as i32, &reversed);
    for c in 0..size {
        assert_eq!(g.adj_matrix.get(c, c), Ok(0));
        for r in 0..c {
            let there = g.adj_matrix.get(c, r).unwrap();
            let back = g.adj_matrix.get(r, c).unwrap();
            assert_eq!(there + back, 1);
            let (px, py) = ((size - 1 - c) as i32, r as i32);
            let z = ((px + py) * (px + py + 1) / 2 + py) as usize;
            assert_eq!(back == 1, reversed[z]);
        }
    }
}

#[test]
fn the_lowest_vertex_of_an_unreversed_graph_qualifies() {
    let g = generate_ping_pong(5, &vec![false; 10]);
    let found = PingPongSolver::new(MultiplicationMethod::Mixed).solve(&g).unwrap();
    assert_eq!(found, vec![0]);
}
