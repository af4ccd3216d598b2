//! The decomposition that the recursive multipliers share: a border of zeros
//! for an odd size, the split in quadrants, seven products of half the size,
//! and the way back.
use vstd::prelude::*;
use crate::console_arguments::MultiplicationMethod;
use crate::matrix::decomposition::{lemma_padded_product, lemma_strassen_step};
use crate::matrix::grid::Grid;
use crate::matrix::matrix::Matrix;
use crate::matrix::mixed_mul::mixed_mul_impl;
use crate::matrix::naive_mul::naive_square_mul;
use crate::matrix::strassen_mul::strassen_mul_impl;

verus! {

/// A product of at most this many elements is not larger than the product of
/// larger factors.
proof fn lemma_smaller_size(cols: int, rows: int, max_cols: int, max_rows: int)
    by (nonlinear_arith)
    requires
        0 <= cols <= max_cols,
        0 <= rows <= max_rows,
    ensures
        cols * rows <= max_cols * max_rows,
{
}

/// The block of the given shape that begins at `(col0, row0)`.
pub fn block(m: &Matrix<i32>, col0: usize, row0: usize, cols: usize, rows: usize) -> (res: Matrix<i32>)
    requires
        col0 + cols <= m@.cols(),
        row0 + rows <= m@.rows,
    ensures
        res@ == m@.block(col0 as int, row0 as int, cols as nat, rows as nat),
{
    // The block has no more elements than `m`, whose count is a `usize`.
    let _elements = m.len();
    proof {
        lemma_smaller_size(cols as int, rows as int, m@.cols() as int, m@.rows as int);
    }
    let mut res = Matrix::new(cols, rows);
    res.paste(0, 0, m, col0, row0, cols, rows);
    proof {
        let g = m@.block(col0 as int, row0 as int, cols as nat, rows as nat);
        assert(res@.wf() && g.wf());
        assert(res@.same_as(g));
        res@.lemma_same_is_equal(g);
    }
    res
}

/// The matrix with one more column and one more row, both of zeros, after
/// its last.
pub fn pad(m: &Matrix<i32>) -> (res: Matrix<i32>)
    requires
        (m@.cols() + 1) * (m@.rows + 1) <= usize::MAX,
    ensures
        res@ == m@.padded(),
{
    proof {
        lemma_smaller_size((m@.cols() + 1) as int, 1, (m@.cols() + 1) as int, (m@.rows + 1) as int);
        lemma_smaller_size(1, (m@.rows + 1) as int, (m@.cols() + 1) as int, (m@.rows + 1) as int);
    }
    let mut res = Matrix::new(m.cols() + 1, m.rows() + 1);
    res.paste(0, 0, m, 0, 0, m.cols(), m.rows());
    proof {
        let g = m@.padded();
        assert(res@.wf() && g.wf());
        assert(res@.same_as(g));
        res@.lemma_same_is_equal(g);
    }
    res
}

/// The matrix without its last column and its last row.
pub fn trim(m: &Matrix<i32>) -> (res: Matrix<i32>)
    requires
        m@.cols() > 0,
        m@.rows > 0,
    ensures
        res@ == m@.trimmed(),
{
    block(m, 0, 0, m.cols() - 1, m.rows() - 1)
}

/// The four quadrants of a square matrix of even size: `11`, `12`, `21` and
/// `22`, where the first digit tells the half of the columns and the second
/// the half of the rows.
pub fn split(m: &Matrix<i32>) -> (q: (Matrix<i32>, Matrix<i32>, Matrix<i32>, Matrix<i32>))
    requires
        m@.is_square(),
        m@.cols() % 2 == 0,
    ensures
        q.0@ == m@.q11(),
        q.1@ == m@.q12(),
        q.2@ == m@.q21(),
        q.3@ == m@.q22(),
{
    let h = m.cols() / 2;
    (block(m, 0, 0, h, h), block(m, 0, h, h, h), block(m, h, 0, h, h), block(m, h, h, h, h))
}

/// The square matrix of twice the size that has the four given matrices as
/// its quadrants.
pub fn join(q11: &Matrix<i32>, q12: &Matrix<i32>, q21: &Matrix<i32>, q22: &Matrix<i32>) -> (res: Matrix<i32>)
    requires
        q11@.is_square() && q12@.is_square() && q21@.is_square() && q22@.is_square(),
        q11@.rows == q12@.rows == q21@.rows == q22@.rows,
        (2 * q11@.rows) * (2 * q11@.rows) <= usize::MAX,
    ensures
        res@ == Grid::join(q11@, q12@, q21@, q22@),
{
    let h = q11.rows();
    proof {
        if h > 0 {
            lemma_smaller_size(2 * h, 1, 2 * h, 2 * h);
        }
    }
    let mut res = Matrix::new(2 * h, 2 * h);
    res.paste(0, 0, q11, 0, 0, h, h);
    res.paste(0, h, q12, 0, 0, h, h);
    res.paste(h, 0, q21, 0, 0, h, h);
    res.paste(h, h, q22, 0, 0, h, h);
    proof {
        let g = Grid::join(q11@, q12@, q21@, q22@);
        assert(res@.wf() && g.wf());
        assert(res@.same_as(g));
        res@.lemma_same_is_equal(g);
    }
    res
}

/// The product of two square matrices of one size by the given method, with
/// nothing left to reject.
fn sub_product(target: &MultiplicationMethod, a: &Matrix<i32>, b: &Matrix<i32>) -> (res: Matrix<i32>)
    requires
        a@.square_pair(b@),
    ensures
        res@ == a@.times(b@),
    decreases a@.cols(), 3nat,
{
    match target {
        MultiplicationMethod::Naive => {
            naive_square_mul(a, b)
        },
        MultiplicationMethod::Strassen => strassen_mul_impl(a, b),
        MultiplicationMethod::Mixed => mixed_mul_impl(a, b),
    }
}

/// One step of the decomposition on two square matrices of one even size:
/// the split in quadrants, the seven products of half the size, each by
/// `target`, and the four quadrants of the result put together.
fn strassen_even(a: &Matrix<i32>, b: &Matrix<i32>, target: &MultiplicationMethod) -> (res: Matrix<i32>)
    requires
        a@.square_pair(b@),
        a@.cols() % 2 == 0,
        a@.cols() >= 2,
    ensures
        res@ == a@.times(b@),
    decreases a@.cols() / 2, 4nat,
{
    // The result is as large as `a`, whose count of elements is a `usize`.
    let _elements = a.len();
    let (a11, a12, a21, a22) = split(a);
    let (b11, b12, b21, b22) = split(b);
    let s1 = sub_product(target, &a21.sub(&a22).unwrap(), &b12.add(&b22).unwrap());
    let s2 = sub_product(target, &a11.add(&a22).unwrap(), &b11.add(&b22).unwrap());
    let s3 = sub_product(target, &a11.sub(&a12).unwrap(), &b11.add(&b21).unwrap());
    let s4 = sub_product(target, &a11.add(&a21).unwrap(), &b22);
    let s5 = sub_product(target, &a11, &b21.sub(&b22).unwrap());
    let s6 = sub_product(target, &a22, &b12.sub(&b11).unwrap());
    let s7 = sub_product(target, &a12.add(&a22).unwrap(), &b11);
    let c11 = s1.add(&s2).unwrap().sub(&s4).unwrap().add(&s6).unwrap();
    let c12 = s6.add(&s7).unwrap();
    let c21 = s4.add(&s5).unwrap();
    let c22 = s2.sub(&s3).unwrap().add(&s5).unwrap().sub(&s7).unwrap();
    proof {
        lemma_strassen_step(a@, b@);
    }
    join(&c11, &c12, &c21, &c22)
}

/// The product of two square matrices of one size, at least two, by one step
/// of the decomposition, with the seven products of half the size left to
/// `target`.
///
/// An odd size is made even by a border of zeros, which is taken away from
/// the result. Where a matrix with that border could not be laid out in
/// memory, the product is computed element by element.
pub fn generic_strassen(a: &Matrix<i32>, b: &Matrix<i32>, target: &MultiplicationMethod) -> (res: Matrix<i32>)
    requires
        a@.square_pair(b@),
        a@.cols() >= 2,
    ensures
        res@ == a@.times(b@),
    decreases a@.cols(), 1nat,
{
    let n = a.cols();
    if n % 2 == 0 {
        return strassen_even(a, b, target);
    }
    let fits = match n.checked_add(1) {
        Some(m) => m.checked_mul(m).is_some(),
        None => false,
    };
    if !fits {
        return naive_square_mul(a, b);
    }
    let padded_a = pad(a);
    let padded_b = pad(b);
    let padded_product = strassen_even(&padded_a, &padded_b, target);
    proof {
        lemma_padded_product(a@, b@);
    }
    trim(&padded_product)
}

} // verus!
