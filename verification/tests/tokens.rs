use ping_pong::data_parser::tokens::{numbers_in, parse_number, space};
use ping_pong::data_parser::DataParser;
use ping_pong::matrix::matrix::{Matrix, MultiplyError};

fn number(token: &str) -> Option<i32> {
    parse_number(&token.chars().collect())
}

#[test]
fn tokens_that_are_numbers() {
    assert_eq!(number("0"), Some(0));
    assert_eq!(number("7"), Some(7));
    assert_eq!(number("+7"), Some(7));
    assert_eq!(number("-7"), Some(-7));
    assert_eq!(number("-0"), Some(0));
    assert_eq!(number("007"), Some(7));
    assert_eq!(number("2147483647"), Some(i32::MAX));
    assert_eq!(number("-2147483648"), Some(i32::MIN));
    assert_eq!(number("+0000000000002147483647"), Some(i32::MAX));
}

#[test]
fn tokens_that_are_no_numbers() {
    for token in [
        "", "+", "-", "--1", "+-1", "1-", "1.5", "1e3", "0x10", "a", "1a", "a1", "1_000", "１２", "2147483648",
        "-2147483649", "99999999999999999999999999", "-99999999999999999999999999", "21474836470",
    ] {
        assert_eq!(number(token), None, "{:?}", token);
    }
}

#[test]
fn numbers_are_what_std_reads() {
    for token in ["12", "-12", "+12", "+", "", "1 ", " 1", "2147483647", "2147483648", "-2147483648", "-2147483649", "00", "-", "٣"] {
        assert_eq!(number(token), token.parse::<i32>().ok(), "{:?}", token);
    }
}

#[test]
fn white_space_is_what_std_calls_so() {
    for code in 0..0x11_0000u32 {
        if let Some(c) = char::from_u32(code) {
            assert_eq!(space(c), c.is_whitespace(), "{:x}", code);
        }
    }
}

#[test]
fn a_line_gives_its_numbers() {
    assert_eq!(numbers_in("1 2 3"), vec![1, 2, 3]);
    assert_eq!(numbers_in("  1\t-2   +3  "), vec![1, -2, 3]);
    assert_eq!(numbers_in(" 0  1  0 "), vec![0, 1, 0]);
    assert_eq!(numbers_in("12"), vec![12]);
    assert_eq!(numbers_in("1\u{a0}2\u{3000}3"), vec![1, 2, 3]);
}

#[test]
fn what_is_no_number_is_passed_over() {
    assert_eq!(numbers_in("1 x 2"), vec![1, 2]);
    assert_eq!(numbers_in("1,2 3"), vec![3]);
    assert_eq!(numbers_in("4294967296 5"), vec![5]);
    assert_eq!(numbers_in("   "), Vec::<i32>::new());
    assert_eq!(numbers_in(""), Vec::<i32>::new());
    assert_eq!(numbers_in("- + a"), Vec::<i32>::new());
}

#[test]
fn numbers_of_a_line_are_what_std_finds() {
    for line in ["1 2 3", " 7  -8\t+9 x 1.0 ", "", " ", "a", "10 20\r", "1\u{2003}2", "3 -", "-2147483648 2147483647 2147483648"] {
        let expected: Vec<i32> = line.split_whitespace().filter_map(|s| s.parse().ok()).collect();
        assert_eq!(numbers_in(line), expected, "{:?}", line);
    }
}

fn lines(text: &[&str]) -> Vec<String> {
    text.iter().map(|s| s.to_string()).collect()
}

#[test]
fn a_text_of_two_graphs() {
    let graphs = DataParser::parse_graph_input(&lines(&[" 0  1  1 ", " 0  0  1 ", " 0  0  0 ", "", " 0  1 ", " 1  0 "])).unwrap();
    assert_eq!(graphs.len(), 2);
    assert_eq!(graphs[0].adj_matrix, Matrix::with_data(vec![vec![0, 0, 0], vec![1, 0, 0], vec![1, 1, 0]]).unwrap());
    assert_eq!(graphs[1].adj_matrix, Matrix::with_data(vec![vec![0, 1], vec![1, 0]]).unwrap());
}

#[test]
fn a_line_of_blanks_is_a_row_without_numbers() {
    assert_eq!(DataParser::parse_graph_input(&lines(&["1", " "])).err(), Some(MultiplyError::NotSquare));
    assert_eq!(DataParser::parse_graph_input(&lines(&["1 2 3 4", " "])).unwrap().len(), 1);
}

#[test]
fn a_text_with_a_fault() {
    assert_eq!(DataParser::parse_graph_input(&lines(&["1 2", "3 4", "", ""])).err(), Some(MultiplyError::DimensionMismatch));
    assert_eq!(DataParser::parse_graph_input(&lines(&["1 2", "3"])).err(), Some(MultiplyError::NotSquare));
    assert_eq!(DataParser::parse_graph_input(&lines(&["1 2 3", "4 5 6"])).err(), Some(MultiplyError::NotSquare));
    assert!(DataParser::parse_graph_input(&Vec::new()).unwrap().is_empty());
}
