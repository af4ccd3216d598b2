//! Sums, differences and products of matrices of 32-bit integers, as
//! mathematical values.
//!
//! Elements are added, subtracted and multiplied modulo 2^32, so every sum
//! and product exists. Where the sum or product of the integers fits in 32
//! bits, the element is that integer.
use vstd::prelude::*;
use crate::matrix::grid::Grid;
use crate::matrix::ring::wrap;

verus! {

impl Grid<i32> {
    /// The grid of the given shape that holds zero everywhere.
    pub open spec fn zeros(cols: nat, rows: nat) -> Grid<i32> {
        Grid::build(cols, rows, |c: int, r: int| 0i32)
    }

    /// The square grid that holds one on its diagonal and zero elsewhere.
    pub open spec fn identity(n: nat) -> Grid<i32> {
        Grid::build(n, n, |c: int, r: int| if c == r { 1i32 } else { 0i32 })
    }

    /// Whether the other grid has the shape of this one.
    pub open spec fn same_shape(self, other: Grid<i32>) -> bool {
        self.cols() == other.cols() && self.rows == other.rows
    }

    /// The sum, element by element.
    pub open spec fn plus(self, other: Grid<i32>) -> Grid<i32>
        recommends
            self.same_shape(other),
    {
        Grid::build(self.cols(), self.rows, |c: int, r: int| wrap(self.at(c, r) + other.at(c, r)))
    }

    /// The difference, element by element.
    pub open spec fn minus(self, other: Grid<i32>) -> Grid<i32>
        recommends
            self.same_shape(other),
    {
        Grid::build(self.cols(), self.rows, |c: int, r: int| wrap(self.at(c, r) - other.at(c, r)))
    }

    /// The sum of the first `k` products of an element of row `row` of this
    /// grid and the element of column `col` of the other grid that has the
    /// same index, taken by rising index, as an integer.
    pub open spec fn dot(self, other: Grid<i32>, col: int, row: int, k: nat) -> int
        decreases k,
    {
        if k == 0 {
            0
        } else {
            self.dot(other, col, row, (k - 1) as nat) + self.at(k - 1, row) * other.at(col, k - 1)
        }
    }

    /// The matrix product: as many columns as the other grid and as many
    /// rows as this one.
    pub open spec fn times(self, other: Grid<i32>) -> Grid<i32>
        recommends
            self.cols() == other.rows,
    {
        Grid::build(other.cols(), self.rows, |c: int, r: int| wrap(self.dot(other, c, r, self.cols())))
    }
}

} // verus!
