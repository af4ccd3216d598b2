//! Parts of a matrix as mathematical values: rectangular blocks, the four
//! quadrants of a square matrix of even size, and the border of zeros that
//! makes an odd size even.
//!
//! A quadrant is named by two digits. The first tells the half of the
//! columns, the second the half of the rows, as `(column, row)` names an
//! element: `q12` holds the first half of the columns and the second half
//! of the rows.
use vstd::prelude::*;
use crate::matrix::grid::Grid;

verus! {

impl<T> Grid<T> {
    /// The block of the given shape whose first element is `(col0, row0)`.
    pub open spec fn block(self, col0: int, row0: int, cols: nat, rows: nat) -> Grid<T>
        recommends
            0 <= col0 && col0 + cols <= self.cols(),
            0 <= row0 && row0 + rows <= self.rows,
    {
        Grid::build(cols, rows, |c: int, r: int| self.at(col0 + c, row0 + r))
    }

    /// This grid with a block of `src` laid over it: the block of the given
    /// shape that begins at `(src_col, src_row)` in `src` takes the place of
    /// the block that begins at `(col0, row0)` here.
    pub open spec fn overlay(
        self,
        col0: int,
        row0: int,
        src: Grid<T>,
        src_col: int,
        src_row: int,
        cols: nat,
        rows: nat,
    ) -> Grid<T>
        recommends
            0 <= col0 && col0 + cols <= self.cols(),
            0 <= row0 && row0 + rows <= self.rows,
            0 <= src_col && src_col + cols <= src.cols(),
            0 <= src_row && src_row + rows <= src.rows,
    {
        Grid::build(
            self.cols(),
            self.rows,
            |c: int, r: int|
                if col0 <= c < col0 + cols && row0 <= r < row0 + rows {
                    src.at(c - col0 + src_col, r - row0 + src_row)
                } else {
                    self.at(c, r)
                },
        )
    }

    /// Half the number of columns.
    pub open spec fn half(self) -> nat {
        self.cols() / 2
    }

    /// The quadrant of the first half of the columns and of the rows.
    pub open spec fn q11(self) -> Grid<T> {
        self.block(0, 0, self.half(), self.half())
    }

    /// The quadrant of the first half of the columns and the second half of
    /// the rows.
    pub open spec fn q12(self) -> Grid<T> {
        self.block(0, self.half() as int, self.half(), self.half())
    }

    /// The quadrant of the second half of the columns and the first half of
    /// the rows.
    pub open spec fn q21(self) -> Grid<T> {
        self.block(self.half() as int, 0, self.half(), self.half())
    }

    /// The quadrant of the second half of the columns and of the rows.
    pub open spec fn q22(self) -> Grid<T> {
        self.block(self.half() as int, self.half() as int, self.half(), self.half())
    }

    /// The square grid of twice the size that has the four given grids as
    /// its quadrants.
    pub open spec fn join(q11: Grid<T>, q12: Grid<T>, q21: Grid<T>, q22: Grid<T>) -> Grid<T>
        recommends
            q11.is_square(),
            q12.is_square(),
            q21.is_square(),
            q22.is_square(),
            q11.rows == q12.rows == q21.rows == q22.rows,
    {
        let h = q11.rows as int;
        Grid::build(
            2 * q11.rows,
            2 * q11.rows,
            |c: int, r: int|
                if c < h {
                    if r < h {
                        q11.at(c, r)
                    } else {
                        q12.at(c, r - h)
                    }
                } else {
                    if r < h {
                        q21.at(c - h, r)
                    } else {
                        q22.at(c - h, r - h)
                    }
                },
        )
    }

    /// The grid without its last column and its last row.
    pub open spec fn trimmed(self) -> Grid<T>
        recommends
            self.cols() > 0,
            self.rows > 0,
    {
        self.block(0, 0, (self.cols() - 1) as nat, (self.rows - 1) as nat)
    }

    /// A square grid of even size is its four quadrants put together again.
    pub proof fn lemma_split_join(self)
        requires
            self.wf(),
            self.is_square(),
            self.cols() % 2 == 0,
        ensures
            Grid::join(self.q11(), self.q12(), self.q21(), self.q22()) == self,
    {
        let h = self.half();
        let j = Grid::join(self.q11(), self.q12(), self.q21(), self.q22());
        assert(j.wf());
        assert(j.same_as(self));
        j.lemma_same_is_equal(self);
    }

    /// The quadrants of four square grids of one size put together are those
    /// four grids.
    pub proof fn lemma_join_split(q11: Grid<T>, q12: Grid<T>, q21: Grid<T>, q22: Grid<T>)
        requires
            q11.wf() && q12.wf() && q21.wf() && q22.wf(),
            q11.is_square() && q12.is_square() && q21.is_square() && q22.is_square(),
            q11.rows == q12.rows == q21.rows == q22.rows,
        ensures
            Grid::join(q11, q12, q21, q22).q11() == q11,
            Grid::join(q11, q12, q21, q22).q12() == q12,
            Grid::join(q11, q12, q21, q22).q21() == q21,
            Grid::join(q11, q12, q21, q22).q22() == q22,
    {
        let j = Grid::join(q11, q12, q21, q22);
        assert(j.half() == q11.rows);
        assert(j.q11().same_as(q11));
        j.q11().lemma_same_is_equal(q11);
        assert(j.q12().same_as(q12));
        j.q12().lemma_same_is_equal(q12);
        assert(j.q21().same_as(q21));
        j.q21().lemma_same_is_equal(q21);
        assert(j.q22().same_as(q22));
        j.q22().lemma_same_is_equal(q22);
    }
}

impl Grid<i32> {
    /// The grid with one more column and one more row, both of zeros, after
    /// its last.
    pub open spec fn padded(self) -> Grid<i32> {
        Grid::build(
            self.cols() + 1,
            self.rows + 1,
            |c: int, r: int|
                if c < self.cols() && r < self.rows {
                    self.at(c, r)
                } else {
                    0i32
                },
        )
    }

    /// To add the border of zeros and take it away again changes nothing.
    pub proof fn lemma_pad_trim(self)
        requires
            self.wf(),
        ensures
            self.padded().trimmed() == self,
    {
        let t = self.padded().trimmed();
        assert(t.same_as(self));
        t.lemma_same_is_equal(self);
    }

    /// A square grid of odd size comes back from the whole way round: a
    /// border of zeros, the split in quadrants, the quadrants put together,
    /// the border taken away.
    pub proof fn lemma_pad_split_join_trim(self)
        requires
            self.wf(),
            self.is_square(),
            self.cols() % 2 == 1,
        ensures
            Grid::join(self.padded().q11(), self.padded().q12(), self.padded().q21(), self.padded().q22()).trimmed()
                == self,
    {
        self.padded().lemma_split_join();
        self.lemma_pad_trim();
    }
}

} // verus!
