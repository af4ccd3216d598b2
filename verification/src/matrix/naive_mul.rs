//! The plain way to multiply two matrices: one sum of products for each
//! element of the result.
use vstd::prelude::*;
use crate::matrix::grid::Grid;
use crate::matrix::matrix::{Matrix, MultiplyError};
use crate::matrix::ring::{wrap, lemma_wrapping_ops};

verus! {

/// What the plain multiplier answers: `DimensionMismatch` where `a` has not
/// as many columns as `b` has rows, else the product.
pub open spec fn naive_product(a: Grid<i32>, b: Grid<i32>) -> Result<Grid<i32>, MultiplyError> {
    if a.cols() != b.rows {
        Err(MultiplyError::DimensionMismatch)
    } else {
        Ok(a.times(b))
    }
}

/// The product of `m1` and `m2`, which has the columns of `m2` and the rows
/// of `m1`. Each element is the sum, by rising index, of the products of the
/// elements of a row of `m1` and a column of `m2`.
///
/// Fails with `DimensionMismatch` where `m1` has not as many columns as `m2`
/// has rows.
pub fn naive_mul(m1: &Matrix<i32>, m2: &Matrix<i32>) -> (res: Result<Matrix<i32>, MultiplyError>)
    requires
        m1@.cols() == m2@.rows ==> m2@.cols() * m1@.rows <= usize::MAX,
    ensures
        res is Ok <==> naive_product(m1@, m2@) is Ok,
        res is Ok ==> res->Ok_0@ == naive_product(m1@, m2@)->Ok_0,
        res is Err ==> res->Err_0 == naive_product(m1@, m2@)->Err_0,
{
    if m1.cols() != m2.rows() {
        return Err(MultiplyError::DimensionMismatch);
    }
    let dim = m1.cols();
    let cols = m2.cols();
    let rows = m1.rows();
    let mut result = Matrix::new(cols, rows);
    proof {
        m1.lemma_view_wf();
        m2.lemma_view_wf();
        result.lemma_view_wf();
        Grid::lemma_build(cols as nat, rows as nat, |c: int, r: int| 0i32);
    }
    let mut col: usize = 0;
    while col < cols
        invariant
            m1@.wf(),
            m2@.wf(),
            result@.wf(),
            dim == m1@.cols() == m2@.rows,
            cols == m2@.cols() == result@.cols(),
            rows == m1@.rows == result@.rows,
            col <= cols,
            forall|c: int, r: int|
                0 <= c < col && 0 <= r < rows ==> result@.at(c, r) == wrap(m1@.dot(m2@, c, r, dim as nat)),
        decreases cols - col,
    {
        let mut row: usize = 0;
        while row < rows
            invariant
                m1@.wf(),
                m2@.wf(),
                result@.wf(),
                dim == m1@.cols() == m2@.rows,
                cols == m2@.cols() == result@.cols(),
                rows == m1@.rows == result@.rows,
                col < cols,
                row <= rows,
                forall|c: int, r: int|
                    0 <= c < col && 0 <= r < rows ==> result@.at(c, r) == wrap(m1@.dot(m2@, c, r, dim as nat)),
                forall|r: int|
                    0 <= r < row ==> result@.at(col as int, r) == wrap(m1@.dot(m2@, col as int, r, dim as nat)),
            decreases rows - row,
        {
            let mut sum: i32 = 0;
            let mut i: usize = 0;
            while i < dim
                invariant
                    dim == m1@.cols() == m2@.rows,
                    col < m2@.cols(),
                    row < m1@.rows,
                    i <= dim,
                    sum == wrap(m1@.dot(m2@, col as int, row as int, i as nat)),
                decreases dim - i,
            {
                let x = m1.cell(i, row);
                let y = m2.cell(col, i);
                proof {
                    lemma_wrapping_ops(x, y);
                    lemma_wrapping_ops(sum, x.wrapping_mul(y));
                }
                sum = sum.wrapping_add(x.wrapping_mul(y));
                i += 1;
            }
            proof {
                result@.lemma_update(col as int, row as int, sum);
            }
            result.put(col, row, sum);
            row += 1;
        }
        col += 1;
    }
    proof {
        let g = m1@.times(m2@);
        Grid::lemma_build(cols as nat, rows as nat, |c: int, r: int| wrap(m1@.dot(m2@, c, r, m1@.cols())));
        result@.lemma_same_is_equal(g);
    }
    Ok(result)
}

/// The product of two square matrices of one size, element by element. The
/// result is as large as an operand, so it can be laid out where they can.
pub fn naive_square_mul(a: &Matrix<i32>, b: &Matrix<i32>) -> (res: Matrix<i32>)
    requires
        a@.square_pair(b@),
    ensures
        res@ == a@.times(b@),
{
    // The count of the elements of `a` is a `usize`, and so is that of the result.
    let _elements = a.len();
    naive_mul(a, b).unwrap()
}

} // verus!
