use ping_pong::data_parser::tokens::{numbers_in, parse_number};
use ping_pong::data_parser::DataParser;
use ping_pong::graph::graph::Graph;
use ping_pong::matrix::matrix::Matrix;
use ping_pong::output::{format_graphs, format_matrix, format_results, push_digits, push_number};

fn number_text(v: i32) -> String {
    let mut text = String::from("x");
    push_number(&mut text, v);
    text
}

#[test]
fn numbers_as_text() {
    assert_eq!(number_text(0), "x0");
    assert_eq!(number_text(7), "x7");
    assert_eq!(number_text(10), "x10");
    assert_eq!(number_text(-1), "x-1");
    assert_eq!(number_text(1234567890), "x1234567890");
    assert_eq!(number_text(i32::MAX), "x2147483647");
    assert_eq!(number_text(i32::MIN), "x-2147483648");
}

#[test]
fn digits_of_large_numbers() {
    let mut text = String::new();
    push_digits(&mut text, u128::MAX);
    assert_eq!(text, "340282366920938463463374607431768211455");
    push_digits(&mut text, 0);
    push_digits(&mut text, 907);
    assert_eq!(text, "3402823669209384634633746074317682114550907");
}

#[test]
fn numbers_are_written_as_std_writes_them() {
    for v in [0, 1, 9, 10, 99, 100, -1, -9, -10, -99, 12345, -12345, i32::MAX, i32::MIN] {
        let mut text = String::new();
        push_number(&mut text, v);
        assert_eq!(text, v.to_string());
        assert_eq!(parse_number(&text.chars().collect()), Some(v));
    }
}

#[test]
fn a_matrix_as_text() {
    let m = Matrix::with_data(vec![vec![0, 1, -1], vec![10, 5, 100]]).unwrap();
    assert_eq!(format_matrix(&m), " 0 10 \n 1  5 \n-1 100 \n");
    assert_eq!(format_matrix(&Matrix::new(0, 0)), "");
    assert_eq!(format_matrix(&Matrix::new(0, 2)), "\n\n");
    assert_eq!(format_matrix(&Matrix::new(2, 0)), "");
}

#[test]
fn a_matrix_is_written_as_std_writes_it() {
    let m: Matrix<i32> = Matrix::with_flat_data(4, vec![3, -4, 15, 0, 7, -20, 1, 1, 1, 999, -999, 5]).unwrap();
    let mut expected = String::new();
    for row in 0..m.rows() {
        for col in 0..m.cols() {
            expected.push_str(&format!("{:>2} ", m.get(col, row).unwrap()));
        }
        expected.push('\n');
    }
    assert_eq!(format_matrix(&m), expected);
}

#[test]
fn graphs_as_the_text_of_a_file() {
    let first = Graph::new(Matrix::with_data(vec![vec![0, 1], vec![0, 0]]).unwrap());
    let second = Graph::new(Matrix::with_data(vec![vec![7]]).unwrap());
    assert_eq!(format_graphs(&vec![first, second]), " 0  0 \n 1  0 \n\n 7 \n");
    assert_eq!(format_graphs(&Vec::new()), "");
}

#[test]
fn answers_as_the_text_of_a_file() {
    assert_eq!(format_results(&vec![vec![0, 2, 9], vec![], vec![41]]), "1 3 10\n\n42\n");
    assert_eq!(format_results(&Vec::new()), "");
    assert_eq!(format_results(&vec![vec![usize::MAX]]), format!("{}\n", usize::MAX as u128 + 1));
}

#[test]
fn what_is_written_is_read_again() {
    let graphs = vec![
        Graph::new(Matrix::with_data(vec![vec![0, 1, 0], vec![-5, 0, 12], vec![100, 0, 0]]).unwrap()),
        Graph::new(Matrix::with_data(vec![vec![1]]).unwrap()),
        Graph::new(Matrix::with_data(vec![vec![0, 0], vec![1, 0]]).unwrap()),
    ];
    let text = format_graphs(&graphs);
    let lines: Vec<String> = text.lines().map(|l| l.to_string()).collect();
    let read = DataParser::parse_graph_input(&lines).unwrap();
    assert_eq!(read.len(), graphs.len());
    for (a, b) in read.iter().zip(graphs.iter()) {
        assert_eq!(a.adj_matrix, b.adj_matrix);
    }
    assert_eq!(numbers_in(" 0 -5 100 "), vec![0, -5, 100]);
}
