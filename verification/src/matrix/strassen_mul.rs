//! Multiplication of square matrices by seven products of half the size,
//! down to the size at which the plain way is faster.
use vstd::prelude::*;
use crate::console_arguments::MultiplicationMethod;
use crate::matrix::generic_strassen::generic_strassen;
use crate::matrix::grid::Grid;
use crate::matrix::matrix::{Matrix, MultiplyError};
use crate::matrix::naive_mul::naive_square_mul;

verus! {

/// The largest size that is multiplied element by element.
pub const STRASSEN_THRESHOLD: usize = 512;

/// What the multipliers of square matrices answer: `DimensionMismatch`
/// where `a` has not as many columns as `b` has rows, else `NotSquare` where
/// one of the two is not square, else the product.
pub open spec fn square_product(a: Grid<i32>, b: Grid<i32>) -> Result<Grid<i32>, MultiplyError> {
    if a.cols() != b.rows {
        Err(MultiplyError::DimensionMismatch)
    } else if !a.is_square() || !b.is_square() {
        Err(MultiplyError::NotSquare)
    } else {
        Ok(a.times(b))
    }
}

/// The product of two square matrices of one size.
///
/// Fails with `DimensionMismatch` where `a` has not as many columns as `b`
/// has rows, and with `NotSquare` where they fit but one of them is not
/// square.
pub fn strassen_mul(a: &Matrix<i32>, b: &Matrix<i32>) -> (res: Result<Matrix<i32>, MultiplyError>)
    ensures
        res is Ok <==> square_product(a@, b@) is Ok,
        res is Ok ==> res->Ok_0@ == square_product(a@, b@)->Ok_0,
        res is Err ==> res->Err_0 == square_product(a@, b@)->Err_0,
{
    if a.cols() != b.rows() {
        return Err(MultiplyError::DimensionMismatch);
    }
    if a.cols() != a.rows() || b.cols() != b.rows() {
        return Err(MultiplyError::NotSquare);
    }
    proof {
        a.lemma_view_wf();
        b.lemma_view_wf();
    }
    Ok(strassen_mul_impl(a, b))
}

/// The product of two square matrices of one size: element by element up
/// to the threshold, by the decomposition above it.
pub fn strassen_mul_impl(a: &Matrix<i32>, b: &Matrix<i32>) -> (res: Matrix<i32>)
    requires
        a@.square_pair(b@),
    ensures
        res@ == a@.times(b@),
    decreases a@.cols(), 2nat,
{
    if a.cols() <= STRASSEN_THRESHOLD {
        return naive_square_mul(a, b);
    }
    generic_strassen(a, b, &MultiplicationMethod::Strassen)
}

} // verus!
