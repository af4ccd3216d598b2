use ping_pong::console_arguments::MultiplicationMethod;
use ping_pong::matrix::generic_strassen::{block, generic_strassen, join, pad, split, trim};
use ping_pong::matrix::matrix::{Matrix, MultiplyError};
use ping_pong::matrix::mixed_mul::mixed_mul;
use ping_pong::matrix::naive_mul::naive_mul;
use ping_pong::matrix::strassen_mul::strassen_mul;

fn sample(size: usize, seed: i32) -> Matrix<i32> {
    let mut data: Vec<i32> = Vec::new();
    let mut x: i32 = seed;
    for _ in 0..size * size {
        x = x.wrapping_mul(1103515245).wrapping_add(12345);
        data.push((x >> 16) % 21 - 10);
    }
    if size == 0 {
        Matrix::new(0, 0)
    } else {
        Matrix::with_flat_data(size, data).unwrap()
    }
}

fn identity(size: usize) -> Matrix<i32> {
    let mut m = Matrix::new(size, size);
    for i in 0..size {
        m.set(i, i, 1).unwrap();
    }
    m
}

#[test]
pub fn correct_mul() {
    let rows = 3;
    let cols = 4;
    let m1: Matrix<i32> = Matrix::with_flat_data(cols as usize, (1..=rows * cols).collect()).unwrap();
    let m2: Matrix<i32> = Matrix::with_flat_data(rows as usize, (1..=rows * cols).rev().collect()).unwrap();

    let expected = Matrix::with_data(vec![vec![216, 258, 300], vec![128, 154, 180], vec![40, 50, 60]]).unwrap();

    assert_eq!(expected, naive_mul(&m1, &m2).unwrap());
}

#[test]
pub fn correct_mul_mat_size_3() {
    let rows = 3;
    let cols = 3;
    let m1: Matrix<i32> = Matrix::with_flat_data(cols as usize, (1..=rows * cols).collect()).unwrap();
    let m2: Matrix<i32> = Matrix::with_flat_data(rows as usize, (1..=rows * cols).rev().collect()).unwrap();

    let expected = Matrix::with_data(vec![vec![90, 114, 138], vec![54, 69, 84], vec![18, 24, 30]]).unwrap();

    assert_eq!(expected, strassen_mul(&m1, &m2).unwrap());
}

#[test]
pub fn correct_mul_mat_size_2() {
    let rows = 2;
    let cols = 2;
    let m1: Matrix<i32> = Matrix::with_flat_data(cols as usize, (1..=rows * cols).collect()).unwrap();
    let m2: Matrix<i32> = Matrix::with_flat_data(rows as usize, (1..=rows * cols).rev().collect()).unwrap();

    let expected = Matrix::with_data(vec![vec![13, 20], vec![5, 8]]).unwrap();

    assert_eq!(expected, strassen_mul(&m1, &m2).unwrap());
}

#[test]
pub fn mut_returns_matrix_with_same_size_as_arguments() {
    for size in 1..=100 {
        let m1 = Matrix::new(size, size);
        let m2 = Matrix::new(size, size);

        let mul = strassen_mul(&m1, &m2).unwrap();

        assert_eq!(mul.cols(), size);
        assert_eq!(mul.rows(), size);
    }
}

#[test]
fn reverse_ordered_product_by_every_method() {
    let a: Matrix<i32> = Matrix::with_flat_data(3, (1..=9).collect()).unwrap();
    let b: Matrix<i32> = Matrix::with_flat_data(3, (1..=9).rev().collect()).unwrap();
    let expected = Matrix::with_data(vec![vec![90, 114, 138], vec![54, 69, 84], vec![18, 24, 30]]).unwrap();
    assert_eq!(naive_mul(&a, &b).unwrap(), expected);
    assert_eq!(strassen_mul(&a, &b).unwrap(), expected);
    assert_eq!(mixed_mul(&a, &b).unwrap(), expected);
    assert_eq!(generic_strassen(&a, &b, &MultiplicationMethod::Naive), expected);
    assert_eq!(generic_strassen(&a, &b, &MultiplicationMethod::Strassen), expected);
    assert_eq!(MultiplicationMethod::Naive.multiply(&a, &b).unwrap(), expected);
    assert_eq!(MultiplicationMethod::Strassen.multiply(&a, &b).unwrap(), expected);
    assert_eq!(MultiplicationMethod::Mixed.multiply(&a, &b).unwrap(), expected);
}

#[test]
fn naive_rejects_other_inner_sizes() {
    let a: Matrix<i32> = Matrix::with_flat_data(4, (1..=12).collect()).unwrap();
    assert_eq!(naive_mul(&a, &a).err(), Some(MultiplyError::DimensionMismatch));
}

#[test]
fn naive_takes_rectangles() {
    let a: Matrix<i32> = Matrix::with_flat_data(2, vec![1, 2, 3, 4, 5, 6]).unwrap();
    let b: Matrix<i32> = Matrix::with_flat_data(1, vec![1, -1]).unwrap();
    assert_eq!(naive_mul(&a, &b).unwrap(), Matrix::with_flat_data(1, vec![-3, -3, -3]).unwrap());
}

#[test]
fn square_multipliers_reject_as_they_say() {
    let wide: Matrix<i32> = Matrix::with_flat_data(4, (1..=12).collect()).unwrap();
    let tall: Matrix<i32> = Matrix::with_flat_data(3, (1..=12).collect()).unwrap();
    let small: Matrix<i32> = Matrix::with_flat_data(2, (1..=4).collect()).unwrap();
    assert_eq!(strassen_mul(&wide, &wide).err(), Some(MultiplyError::DimensionMismatch));
    assert_eq!(mixed_mul(&wide, &wide).err(), Some(MultiplyError::DimensionMismatch));
    assert_eq!(strassen_mul(&wide, &tall).err(), Some(MultiplyError::NotSquare));
    assert_eq!(mixed_mul(&wide, &tall).err(), Some(MultiplyError::NotSquare));
    assert_eq!(strassen_mul(&small, &wide).err(), Some(MultiplyError::DimensionMismatch));
    assert_eq!(mixed_mul(&tall, &small).err(), Some(MultiplyError::DimensionMismatch));
    assert_eq!(MultiplicationMethod::Strassen.multiply(&wide, &tall).err(), Some(MultiplyError::NotSquare));
    assert!(MultiplicationMethod::Naive.multiply(&wide, &tall).is_ok());
}

#[test]
fn empty_squares_multiply_to_an_empty_square() {
    let e: Matrix<i32> = Matrix::new(0, 0);
    assert_eq!(naive_mul(&e, &e).unwrap(), Matrix::new(0, 0));
    assert_eq!(strassen_mul(&e, &e).unwrap(), Matrix::new(0, 0));
    assert_eq!(mixed_mul(&e, &e).unwrap(), Matrix::new(0, 0));
}

#[test]
fn methods_agree_up_to_size_70() {
    for size in 0..=70usize {
        let a = sample(size, 7 + size as i32);
        let b = sample(size, 1000 + size as i32);
        let expected = naive_mul(&a, &b).unwrap();
        assert_eq!(strassen_mul(&a, &b).unwrap(), expected);
        assert_eq!(mixed_mul(&a, &b).unwrap(), expected);
    }
}

#[test]
fn one_step_of_the_decomposition_agrees_with_naive() {
    for size in 2..=17usize {
        let a = sample(size, 3 * size as i32);
        let b = sample(size, 5 * size as i32);
        let expected = naive_mul(&a, &b).unwrap();
        assert_eq!(generic_strassen(&a, &b, &MultiplicationMethod::Naive), expected);
        assert_eq!(generic_strassen(&a, &b, &MultiplicationMethod::Mixed), expected);
    }
}

#[test]
fn mixed_recursion_through_two_odd_sizes() {
    let a = sample(131, 42);
    let b = sample(131, 43);
    assert_eq!(mixed_mul(&a, &b).unwrap(), naive_mul(&a, &b).unwrap());
}

#[test]
fn methods_agree_where_elements_wrap_around() {
    let a = Matrix::with_flat_data(2, vec![i32::MAX, i32::MIN, 65536, -65537]).unwrap();
    let b = Matrix::with_flat_data(2, vec![i32::MAX, 3, i32::MIN, 65536]).unwrap();
    let expected = Matrix::with_flat_data(
        2,
        vec![
            i32::MAX.wrapping_mul(i32::MAX).wrapping_add(65536i32.wrapping_mul(3)),
            i32::MIN.wrapping_mul(i32::MAX).wrapping_add((-65537i32).wrapping_mul(3)),
            i32::MAX.wrapping_mul(i32::MIN).wrapping_add(65536i32.wrapping_mul(65536)),
            i32::MIN.wrapping_mul(i32::MIN).wrapping_add((-65537i32).wrapping_mul(65536)),
        ],
    )
    .unwrap();
    assert_eq!(naive_mul(&a, &b).unwrap(), expected);
    assert_eq!(generic_strassen(&a, &b, &MultiplicationMethod::Naive), expected);
    assert_eq!(generic_strassen(&a, &b, &MultiplicationMethod::Mixed), expected);
}

#[test]
fn identity_is_neutral() {
    let a: Matrix<i32> = Matrix::with_flat_data(4, (1..=12).collect()).unwrap();
    assert_eq!(naive_mul(&a, &identity(3)).err(), Some(MultiplyError::DimensionMismatch));
    assert_eq!(naive_mul(&identity(3), &a).unwrap(), a);
    assert_eq!(naive_mul(&a, &identity(4)).unwrap(), a);
    let s = sample(40, 9);
    assert_eq!(mixed_mul(&s, &identity(40)).unwrap(), s);
    assert_eq!(mixed_mul(&identity(40), &s).unwrap(), s);
    assert_eq!(strassen_mul(&identity(40), &s).unwrap(), s);
}

#[test]
fn multiplication_is_associative() {
    let a = sample(35, 1);
    let b = sample(35, 2);
    let c = sample(35, 3);
    let left = mixed_mul(&mixed_mul(&a, &b).unwrap(), &c).unwrap();
    let right = mixed_mul(&a, &mixed_mul(&b, &c).unwrap()).unwrap();
    assert_eq!(left, right);
    let left_naive = naive_mul(&naive_mul(&a, &b).unwrap(), &c).unwrap();
    assert_eq!(left, left_naive);
}

#[test]
fn split_names_quadrants_by_column_half_then_row_half() {
    let m = Matrix::with_data(vec![
        vec![1, 2, 3, 4],
        vec![5, 6, 7, 8],
        vec![9, 10, 11, 12],
        vec![13, 14, 15, 16],
    ])
    .unwrap();
    let (q11, q12, q21, q22) = split(&m);
    assert_eq!(q11, Matrix::with_data(vec![vec![1, 2], vec![5, 6]]).unwrap());
    assert_eq!(q12, Matrix::with_data(vec![vec![3, 4], vec![7, 8]]).unwrap());
    assert_eq!(q21, Matrix::with_data(vec![vec![9, 10], vec![13, 14]]).unwrap());
    assert_eq!(q22, Matrix::with_data(vec![vec![11, 12], vec![15, 16]]).unwrap());
    assert_eq!(join(&q11, &q12, &q21, &q22), m);
}

#[test]
fn split_then_join_gives_the_matrix_back() {
    for size in [0usize, 2, 4, 6, 10] {
        let m = sample(size, 11);
        let (q11, q12, q21, q22) = split(&m);
        assert_eq!(q11.cols(), size / 2);
        assert_eq!(q22.rows(), size / 2);
        assert_eq!(join(&q11, &q12, &q21, &q22), m);
    }
}

#[test]
fn pad_split_join_trim_gives_the_matrix_back() {
    for size in [1usize, 3, 5, 9] {
        let m = sample(size, 13);
        let padded = pad(&m);
        assert_eq!(padded.cols(), size + 1);
        assert_eq!(padded.rows(), size + 1);
        for i in 0..=size {
            assert_eq!(padded.get(size, i), Ok(0));
            assert_eq!(padded.get(i, size), Ok(0));
        }
        let (q11, q12, q21, q22) = split(&padded);
        assert_eq!(trim(&join(&q11, &q12, &q21, &q22)), m);
        assert_eq!(trim(&padded), m);
    }
}

#[test]
fn pad_adds_zeros_after_the_last_column_and_row() {
    let m = Matrix::with_data(vec![vec![1, 2], vec![3, 4], vec![5, 6]]).unwrap();
    let expected = Matrix::with_data(vec![vec![1, 2, 0], vec![3, 4, 0], vec![5, 6, 0], vec![0, 0, 0]]).unwrap();
    assert_eq!(pad(&m), expected);
    assert_eq!(trim(&expected), m);
}

#[test]
fn block_cuts_a_rectangle() {
    let m: Matrix<i32> = Matrix::with_flat_data(4, (1..=12).collect()).unwrap();
    assert_eq!(block(&m, 1, 1, 2, 2), Matrix::with_data(vec![vec![5, 6], vec![8, 9]]).unwrap());
    assert_eq!(block(&m, 0, 0, 4, 3), m);
    assert_eq!(block(&m, 4, 3, 0, 0), Matrix::new(0, 0));
}

#[test]
fn strassen_above_its_threshold() {
    let s = sample(514, 77);
    assert_eq!(strassen_mul(&identity(514), &s).unwrap(), s);
    let odd = sample(513, 78);
    assert_eq!(strassen_mul(&odd, &identity(513)).unwrap(), odd);
    let other = sample(513, 79);
    assert_eq!(strassen_mul(&odd, &other).unwrap(), naive_mul(&odd, &other).unwrap());
}
