use ping_pong::data_parser::DataParser;
use ping_pong::graph::graph::Graph;
use ping_pong::matrix::matrix::{Matrix, MultiplyError};

#[test]
fn add_graph_reads_lines_as_rows() {
    let mut graphs: Vec<Graph> = Vec::new();
    let numbers = vec![1, 2, 3, 4, 5, 6, 7, 8, 9];
    assert_eq!(DataParser::add_graph(&mut graphs, &numbers, 3), Ok(()));
    assert_eq!(graphs.len(), 1);
    let expected = Matrix::with_data(vec![vec![1, 4, 7], vec![2, 5, 8], vec![3, 6, 9]]).unwrap();
    assert_eq!(graphs[0].adj_matrix, expected);
    assert_eq!(graphs[0].adj_matrix.get(2, 0), Ok(3));
    assert_eq!(graphs[0].adj_matrix.column(0).unwrap(), &[1, 4, 7][..]);
}

#[test]
fn add_graph_keeps_earlier_graphs() {
    let mut graphs: Vec<Graph> = Vec::new();
    DataParser::add_graph(&mut graphs, &vec![5], 1).unwrap();
    DataParser::add_graph(&mut graphs, &vec![0, 1, 0, 0], 2).unwrap();
    assert_eq!(graphs.len(), 2);
    assert_eq!(graphs[0].adj_matrix, Matrix::with_flat_data(1, vec![5]).unwrap());
    assert_eq!(graphs[1].adj_matrix, Matrix::with_flat_data(2, vec![0, 0, 1, 0]).unwrap());
}

#[test]
fn add_graph_rejects_what_is_not_square() {
    let mut graphs: Vec<Graph> = Vec::new();
    DataParser::add_graph(&mut graphs, &vec![5], 1).unwrap();
    assert_eq!(DataParser::add_graph(&mut graphs, &vec![1, 2, 3, 4, 5, 6], 2), Err(MultiplyError::NotSquare));
    assert_eq!(DataParser::add_graph(&mut graphs, &vec![1, 2, 3, 4, 5, 6], 3), Err(MultiplyError::NotSquare));
    assert_eq!(DataParser::add_graph(&mut graphs, &Vec::new(), 2), Err(MultiplyError::NotSquare));
    assert_eq!(graphs.len(), 1);
}

#[test]
fn add_graph_rejects_no_lines() {
    let mut graphs: Vec<Graph> = Vec::new();
    assert_eq!(DataParser::add_graph(&mut graphs, &Vec::new(), 0), Err(MultiplyError::DimensionMismatch));
    assert_eq!(DataParser::add_graph(&mut graphs, &vec![1], 0), Err(MultiplyError::DimensionMismatch));
    assert!(graphs.is_empty());
}

#[test]
fn lines_between_empty_lines_are_graphs() {
    let lines = vec![
        Some(vec![0, 1]),
        Some(vec![1, 0]),
        None,
        Some(vec![7]),
        None,
        Some(vec![0, 0, 1]),
        Some(vec![1, 0, 0]),
        Some(vec![0, 1, 0]),
    ];
    let graphs = DataParser::parse_lines(&lines).unwrap();
    assert_eq!(graphs.len(), 3);
    assert_eq!(graphs[0].adj_matrix, Matrix::with_data(vec![vec![0, 1], vec![1, 0]]).unwrap());
    assert_eq!(graphs[1].adj_matrix, Matrix::with_data(vec![vec![7]]).unwrap());
    assert_eq!(graphs[2].adj_matrix, Matrix::with_data(vec![vec![0, 1, 0], vec![0, 0, 1], vec![1, 0, 0]]).unwrap());
}

#[test]
fn an_empty_line_at_the_end_changes_nothing() {
    let with = DataParser::parse_lines(&vec![Some(vec![3]), None]).unwrap();
    let without = DataParser::parse_lines(&vec![Some(vec![3])]).unwrap();
    assert_eq!(with.len(), 1);
    assert_eq!(without.len(), 1);
    assert_eq!(with[0].adj_matrix, without[0].adj_matrix);
}

#[test]
fn no_lines_give_no_graphs() {
    assert_eq!(DataParser::parse_lines(&Vec::new()).unwrap().len(), 0);
}

#[test]
fn rows_may_differ_in_length_if_they_fill_a_square() {
    let graphs = DataParser::parse_lines(&vec![Some(vec![1, 2, 3]), Some(vec![4])]).unwrap();
    assert_eq!(graphs[0].adj_matrix, Matrix::with_data(vec![vec![1, 3], vec![2, 4]]).unwrap());
}

#[test]
fn an_empty_line_without_rows_is_a_fault() {
    assert_eq!(DataParser::parse_lines(&vec![None]).err(), Some(MultiplyError::DimensionMismatch));
    assert_eq!(
        DataParser::parse_lines(&vec![Some(vec![1]), None, None, Some(vec![2])]).err(),
        Some(MultiplyError::DimensionMismatch)
    );
}

#[test]
fn rows_that_fill_no_square_are_a_fault() {
    assert_eq!(
        DataParser::parse_lines(&vec![Some(vec![1, 2, 3]), Some(vec![4, 5, 6]), None, Some(vec![1])]).err(),
        Some(MultiplyError::NotSquare)
    );
    assert_eq!(DataParser::parse_lines(&vec![Some(vec![1]), None, Some(vec![1, 2])]).err(), Some(MultiplyError::NotSquare));
    assert_eq!(DataParser::parse_lines(&vec![Some(Vec::new())]).err(), Some(MultiplyError::NotSquare));
}
