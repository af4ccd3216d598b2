//! The matrix container: a dense store of `cols` columns by `rows` rows.
use vstd::prelude::*;
use vstd::std_specs::cmp::PartialEqSpecImpl;
use crate::matrix::grid::Grid;
use crate::matrix::ring::wrap;

verus! {

/// Why a matrix could not be built or combined.
#[derive(Clone, Copy, Debug, PartialEq, Eq, Structural)]
pub enum MultiplyError {
    /// The shapes of the operands do not fit together.
    DimensionMismatch,
    /// An operand that has to be square is not.
    NotSquare,
}

/// An element was asked for outside the matrix.
#[derive(Clone, Copy, Debug, PartialEq, Eq, Structural)]
pub struct OutOfRange {
    /// The column that was asked for.
    pub col: usize,
    /// The row that was asked for.
    pub row: usize,
}

/// A dense matrix. The elements of one column lie side by side in `data`.
#[derive(Debug)]
pub struct Matrix<T> {
    cols: usize,
    rows: usize,
    data: Vec<T>,
}

impl<T> View for Matrix<T> {
    type V = Grid<T>;

    closed spec fn view(&self) -> Grid<T> {
        Grid::build(self.cols as nat, self.rows as nat, |c: int, r: int| self.data@[c * self.rows + r])
    }
}

impl<T: Copy> Clone for Matrix<T> {
    /// A matrix of the same shape with the same elements.
    fn clone(&self) -> (res: Self)
        ensures
            res@ == self@,
    {
        proof {
            use_type_invariant(self);
        }
        let mut data: Vec<T> = Vec::new();
        let mut i: usize = 0;
        while i < self.data.len()
            invariant
                i <= self.data.len(),
                data@ == self.data@.subrange(0, i as int),
            decreases self.data.len() - i,
        {
            data.push(self.data[i]);
            i += 1;
            assert(data@ =~= self.data@.subrange(0, i as int));
        }
        assert(data@ =~= self.data@);
        Matrix { cols: self.cols, rows: self.rows, data }
    }
}

impl<T> Matrix<T> {
    #[verifier::type_invariant]
    closed spec fn storage_matches_shape(self) -> bool {
        self.data@.len() == self.cols * self.rows <= usize::MAX
    }

    /// The model of a matrix is always well-formed.
    pub proof fn lemma_view_wf(self)
        ensures
            self@.wf(),
    {
    }

    /// The place of element `(c, r)` in the store lies inside it.
    proof fn lemma_cell_index(cols: int, rows: int, c: int, r: int)
        by (nonlinear_arith)
        requires
            0 <= c < cols,
            0 <= r < rows,
        ensures
            0 <= c * rows <= c * rows + r < (c + 1) * rows <= cols * rows,
    {
    }

    /// A column begins where the one before it ends.
    proof fn lemma_next_column(rows: int, c: int)
        by (nonlinear_arith)
        ensures
            (c + 1) * rows == c * rows + rows,
    {
    }

    /// Builds a matrix with `cols` columns from its elements, given column
    /// after column. The number of rows is `data.len() / cols`.
    ///
    /// Fails with `DimensionMismatch` where `cols` is zero or does not divide
    /// the number of elements.
    pub fn with_flat_data(cols: usize, data: Vec<T>) -> (res: Result<Self, MultiplyError>)
        ensures
            res is Ok <==> cols > 0 && data@.len() % (cols as nat) == 0,
            res is Ok ==> res->Ok_0@ == Grid::from_flat(cols as nat, data@),
            res is Err ==> res->Err_0 == MultiplyError::DimensionMismatch,
    {
        if cols == 0 || data.len() % cols != 0 {
            return Err(MultiplyError::DimensionMismatch);
        }
        let rows = data.len() / cols;
        proof {
            vstd::arithmetic::div_mod::lemma_fundamental_div_mod(data.len() as int, cols as int);
        }
        let m = Matrix { cols, rows, data };
        proof {
            let g = Grid::from_flat(cols as nat, data@);
            assert(m@ =~~= g);
        }
        Ok(m)
    }

    /// The elements of column `col`, from the first row to the last, or
    /// `OutOfRange` where the matrix has no such column.
    pub fn column(&self, col: usize) -> (res: Result<&[T], OutOfRange>)
        ensures
            res is Ok <==> col < self@.cols(),
            res is Ok ==> res->Ok_0@ == self@.columns[col as int],
            res is Err ==> res->Err_0 == (OutOfRange { col, row: 0 }),
    {
        if col >= self.cols {
            return Err(OutOfRange { col, row: 0 });
        }
        proof {
            use_type_invariant(self);
            Self::lemma_next_column(self.rows as int, col as int);
            if self.rows > 0 {
                Self::lemma_cell_index(self.cols as int, self.rows as int, col as int, 0);
            } else {
                assert(col * self.rows == 0) by (nonlinear_arith)
                    requires
                        self.rows == 0,
                ;
            }
        }
        let start = col * self.rows;
        let slice = vstd::slice::slice_subrange(self.data.as_slice(), start, start + self.rows);
        proof {
            assert(slice@ =~= self@.columns[col as int]);
        }
        Ok(slice)
    }

    /// The number of elements.
    pub fn len(&self) -> (n: usize)
        ensures
            n == self@.cols() * self@.rows,
    {
        proof {
            use_type_invariant(self);
        }
        self.data.len()
    }

    /// The number of columns.
    pub fn cols(&self) -> (n: usize)
        ensures
            n == self@.cols(),
    {
        self.cols
    }

    /// The number of rows.
    pub fn rows(&self) -> (n: usize)
        ensures
            n == self@.rows,
    {
        self.rows
    }
}

impl<T: Copy> Matrix<T> {
    /// Builds a matrix from its columns.
    ///
    /// Fails with `DimensionMismatch` where two columns differ in length.
    pub fn with_data(data: Vec<Vec<T>>) -> (res: Result<Self, MultiplyError>)
        ensures
            res is Ok <==> equal_lengths(data@),
            res is Ok ==> res->Ok_0@ == Grid::from_columns(columns_of(data@)),
            res is Err ==> res->Err_0 == MultiplyError::DimensionMismatch,
    {
        let cols = data.len();
        let rows = if cols == 0 { 0 } else { data[0].len() };
        let mut flat: Vec<T> = Vec::new();
        let mut c: usize = 0;
        while c < cols
            invariant
                cols == data@.len(),
                rows == (if cols == 0 { 0 } else { data@[0]@.len() }),
                c <= cols,
                flat@.len() == c * rows,
                forall|i: int| 0 <= i < c ==> (#[trigger] data@[i])@.len() == rows,
                forall|i: int, r: int|
                    0 <= i < c && 0 <= r < rows ==> flat@[i * rows + r] == (#[trigger] data@[i]@[r]),
            decreases cols - c,
        {
            let column = &data[c];
            if column.len() != rows {
                return Err(MultiplyError::DimensionMismatch);
            }
            let mut r: usize = 0;
            while r < rows
                invariant
                    c < cols,
                    column@ == data@[c as int]@,
                    column@.len() == rows,
                    r <= rows,
                    flat@.len() == c * rows + r,
                    forall|i: int, k: int|
                        0 <= i < c && 0 <= k < rows ==> flat@[i * rows + k] == (#[trigger] data@[i]@[k]),
                    forall|k: int| 0 <= k < r ==> flat@[c * rows + k] == #[trigger] column@[k],
                decreases rows - r,
            {
                let ghost before = flat@;
                flat.push(column[r]);
                r += 1;
                proof {
                    assert forall|i: int, k: int| 0 <= i < c && 0 <= k < rows implies flat@[i * rows + k]
                        == #[trigger] data@[i]@[k] by {
                        Self::lemma_cell_index(c as int, rows as int, i, k);
                        assert(flat@[i * rows + k] == before[i * rows + k]);
                    }
                }
            }
            proof {
                Self::lemma_next_column(rows as int, c as int);
            }
            c += 1;
        }
        let ghost cells = flat@;
        // The count of the elements is a `usize`, as the shape asks.
        let _elements = flat.len();
        let m = Matrix { cols, rows, data: flat };
        proof {
            let g = Grid::from_columns(columns_of(data@));
            assert(equal_lengths(data@));
            assert(m@.columns.len() == g.columns.len());
            assert forall|i: int| 0 <= i < cols implies m@.columns[i] =~= g.columns[i] by {
                assert(data@[i]@.len() == rows);
                assert forall|r: int| 0 <= r < rows implies m@.columns[i][r] == g.columns[i][r] by {
                    assert(cells[i * rows + r] == data@[i]@[r]);
                }
            }
            assert(m@.columns =~= g.columns);
            assert(m@ == g);
        }
        Ok(m)
    }

    /// The element in column `col` and row `row`, for callers that have
    /// shown that the matrix has it.
    pub(crate) fn cell(&self, col: usize, row: usize) -> (value: T)
        requires
            self@.has(col as int, row as int),
        ensures
            value == self@.at(col as int, row as int),
    {
        proof {
            use_type_invariant(self);
            Self::lemma_cell_index(self.cols as int, self.rows as int, col as int, row as int);
        }
        self.data[col * self.rows + row]
    }

    /// The element in column `col` and row `row`, or `OutOfRange` where the
    /// matrix has no such element.
    pub fn get(&self, col: usize, row: usize) -> (res: Result<T, OutOfRange>)
        ensures
            res is Ok <==> self@.has(col as int, row as int),
            res is Ok ==> res->Ok_0 == self@.at(col as int, row as int),
            res is Err ==> res->Err_0 == (OutOfRange { col, row }),
    {
        if col < self.cols && row < self.rows {
            Ok(self.cell(col, row))
        } else {
            Err(OutOfRange { col, row })
        }
    }

    /// Puts `value` in column `col` and row `row` and leaves every other
    /// element as it is. Where the matrix has no such element, it stays
    /// unchanged and the answer is `OutOfRange`.
    pub fn set(&mut self, col: usize, row: usize, value: T) -> (res: Result<(), OutOfRange>)
        ensures
            res is Ok <==> old(self)@.has(col as int, row as int),
            res is Ok ==> final(self)@ == old(self)@.update(col as int, row as int, value),
            res is Err ==> final(self)@ == old(self)@ && res->Err_0 == (OutOfRange { col, row }),
    {
        if col < self.cols && row < self.rows {
            self.put(col, row, value);
            Ok(())
        } else {
            Err(OutOfRange { col, row })
        }
    }

    /// Puts `value` in column `col` and row `row` and leaves every other
    /// element as it is, for callers that have shown that the matrix has
    /// such an element.
    pub(crate) fn put(&mut self, col: usize, row: usize, value: T)
        requires
            old(self)@.has(col as int, row as int),
        ensures
            final(self)@ == old(self)@.update(col as int, row as int, value),
    {
        proof {
            use_type_invariant(&*self);
            Self::lemma_cell_index(self.cols as int, self.rows as int, col as int, row as int);
        }
        let rows = self.rows;
        self.data[col * rows + row] = value;
        proof {
            let g = old(self)@.update(col as int, row as int, value);
            assert(g.columns.len() == self.cols);
            assert forall|c: int| 0 <= c < self.cols implies self@.columns[c] =~= g.columns[c] by {
                assert(old(self)@.columns[c].len() == self.rows);
                assert(g.columns[c].len() == self.rows);
                assert forall|r: int| 0 <= r < self.rows implies self@.columns[c][r] == g.columns[c][r] by {
                    Self::lemma_cell_index(self.cols as int, self.rows as int, c, r);
                    if c != col {
                        Self::lemma_distinct_cells(self.rows as int, c, r, col as int, row as int);
                    }
                }
            }
            assert(self@.columns =~= g.columns);
            assert(self@ == g);
        }
    }

    /// Copies a block of `src` over a block of this matrix: the block of the
    /// given shape that begins at `(src_col, src_row)` in `src` takes the
    /// place of the block that begins at `(col0, row0)` here.
    pub(crate) fn paste(
        &mut self,
        col0: usize,
        row0: usize,
        src: &Matrix<T>,
        src_col: usize,
        src_row: usize,
        cols: usize,
        rows: usize,
    )
        requires
            col0 + cols <= old(self)@.cols(),
            row0 + rows <= old(self)@.rows,
            src_col + cols <= src@.cols(),
            src_row + rows <= src@.rows,
        ensures
            final(self)@ == old(self)@.overlay(
                col0 as int,
                row0 as int,
                src@,
                src_col as int,
                src_row as int,
                cols as nat,
                rows as nat,
            ),
    {
        let ghost before = self@;
        proof {
            self.lemma_view_wf();
        }
        let mut c: usize = 0;
        while c < cols
            invariant
                before.wf(),
                self@.wf(),
                self@.cols() == before.cols(),
                self@.rows == before.rows,
                col0 + cols <= before.cols(),
                row0 + rows <= before.rows,
                src_col + cols <= src@.cols(),
                src_row + rows <= src@.rows,
                c <= cols,
                forall|i: int, k: int|
                    before.has(i, k) ==> self@.at(i, k) == (if col0 <= i < col0 + c && row0 <= k < row0 + rows {
                        src@.at(i - col0 + src_col, k - row0 + src_row)
                    } else {
                        before.at(i, k)
                    }),
            decreases cols - c,
        {
            let mut r: usize = 0;
            while r < rows
                invariant
                    before.wf(),
                    self@.wf(),
                    self@.cols() == before.cols(),
                    self@.rows == before.rows,
                    col0 + cols <= before.cols(),
                    row0 + rows <= before.rows,
                    src_col + cols <= src@.cols(),
                    src_row + rows <= src@.rows,
                    c < cols,
                    r <= rows,
                    forall|i: int, k: int|
                        before.has(i, k) ==> self@.at(i, k) == (if (col0 <= i < col0 + c && row0 <= k < row0 + rows)
                            || (i == col0 + c && row0 <= k < row0 + r) {
                            src@.at(i - col0 + src_col, k - row0 + src_row)
                        } else {
                            before.at(i, k)
                        }),
                decreases rows - r,
            {
                let value = src.cell(src_col + c, src_row + r);
                proof {
                    self@.lemma_update(col0 + c, row0 + r, value);
                }
                self.put(col0 + c, row0 + r, value);
                r += 1;
            }
            c += 1;
        }
        proof {
            let g = before.overlay(
                col0 as int,
                row0 as int,
                src@,
                src_col as int,
                src_row as int,
                cols as nat,
                rows as nat,
            );
            assert(g.wf() && g.cols() == before.cols() && g.rows == before.rows);
            assert forall|i: int, k: int| self@.has(i, k) implies self@.at(i, k) == g.at(i, k) by {
                assert(before.has(i, k));
            }
            self@.lemma_same_is_equal(g);
        }
    }

    /// Elements of different columns lie at different places of the store.
    proof fn lemma_distinct_cells(rows: int, c: int, r: int, c2: int, r2: int)
        by (nonlinear_arith)
        requires
            0 <= r < rows,
            0 <= r2 < rows,
            c != c2,
        ensures
            c * rows + r != c2 * rows + r2,
    {
    }
}

impl PartialEq for Matrix<i32> {
    /// Whether the two matrices have one shape and the same elements.
    fn eq(&self, other: &Self) -> (res: bool) {
        proof {
            self.lemma_view_wf();
            other.lemma_view_wf();
            assert(self@.cols() == self.cols && self@.rows == self.rows);
            assert(other@.cols() == other.cols && other@.rows == other.rows);
        }
        if self.cols != other.cols || self.rows != other.rows {
            return false;
        }
        let mut col: usize = 0;
        while col < self.cols
            invariant
                self@.same_shape(other@),
                self.cols == self@.cols(),
                self.rows == self@.rows,
                col <= self.cols,
                forall|c: int, r: int| 0 <= c < col && 0 <= r < self.rows ==> self@.at(c, r) == other@.at(c, r),
            decreases self.cols - col,
        {
            let mut row: usize = 0;
            while row < self.rows
                invariant
                    self@.same_shape(other@),
                    self.cols == self@.cols(),
                    self.rows == self@.rows,
                    col < self.cols,
                    row <= self.rows,
                    forall|c: int, r: int|
                        0 <= c < col && 0 <= r < self.rows ==> self@.at(c, r) == other@.at(c, r),
                    forall|r: int| 0 <= r < row ==> self@.at(col as int, r) == other@.at(col as int, r),
                decreases self.rows - row,
            {
                if self.cell(col, row) != other.cell(col, row) {
                    return false;
                }
                row += 1;
            }
            col += 1;
        }
        proof {
            self@.lemma_same_is_equal(other@);
        }
        true
    }
}

impl PartialEqSpecImpl for Matrix<i32> {
    open spec fn obeys_eq_spec() -> bool {
        true
    }

    open spec fn eq_spec(&self, other: &Self) -> bool {
        self@ == other@
    }
}

impl Matrix<i32> {
    /// The matrix of the given shape that holds zero everywhere.
    pub fn new(cols: usize, rows: usize) -> (m: Self)
        requires
            cols * rows <= usize::MAX,
        ensures
            m@ == Grid::zeros(cols as nat, rows as nat),
    {
        let data = vec![0i32; cols * rows];
        let m = Matrix { cols, rows, data };
        proof {
            let g = Grid::zeros(cols as nat, rows as nat);
            assert forall|c: int| 0 <= c < cols implies m@.columns[c] =~= g.columns[c] by {
                assert forall|r: int| 0 <= r < rows implies m@.columns[c][r] == g.columns[c][r] by {
                    Self::lemma_cell_index(cols as int, rows as int, c, r);
                }
            }
            assert(m@.columns =~= g.columns);
        }
        m
    }

    /// The sum of two matrices of one shape, element by element.
    ///
    /// Fails with `DimensionMismatch` where the shapes differ.
    pub fn add(&self, rhs: &Matrix<i32>) -> (res: Result<Matrix<i32>, MultiplyError>)
        ensures
            res is Ok <==> self@.same_shape(rhs@),
            res is Ok ==> res->Ok_0@ == self@.plus(rhs@),
            res is Err ==> res->Err_0 == MultiplyError::DimensionMismatch,
    {
        if self.cols != rhs.cols || self.rows != rhs.rows {
            return Err(MultiplyError::DimensionMismatch);
        }
        proof {
            use_type_invariant(self);
            use_type_invariant(rhs);
        }
        let n = self.data.len();
        let mut data: Vec<i32> = Vec::new();
        let mut k: usize = 0;
        while k < n
            invariant
                n == self.data@.len(),
                n == rhs.data@.len(),
                k <= n,
                data@.len() == k,
                forall|i: int| 0 <= i < k ==> data@[i] == wrap(self.data@[i] + rhs.data@[i]),
            decreases n - k,
        {
            data.push(self.data[k].wrapping_add(rhs.data[k]));
            k += 1;
        }
        let m = Matrix { cols: self.cols, rows: self.rows, data };
        proof {
            let g = self@.plus(rhs@);
            assert forall|c: int| 0 <= c < self.cols implies m@.columns[c] =~= g.columns[c] by {
                assert forall|r: int| 0 <= r < self.rows implies m@.columns[c][r] == g.columns[c][r] by {
                    Self::lemma_cell_index(self.cols as int, self.rows as int, c, r);
                }
            }
            assert(m@.columns =~= g.columns);
        }
        Ok(m)
    }

    /// The difference of two matrices of one shape, element by element.
    ///
    /// Fails with `DimensionMismatch` where the shapes differ.
    pub fn sub(&self, rhs: &Matrix<i32>) -> (res: Result<Matrix<i32>, MultiplyError>)
        ensures
            res is Ok <==> self@.same_shape(rhs@),
            res is Ok ==> res->Ok_0@ == self@.minus(rhs@),
            res is Err ==> res->Err_0 == MultiplyError::DimensionMismatch,
    {
        if self.cols != rhs.cols || self.rows != rhs.rows {
            return Err(MultiplyError::DimensionMismatch);
        }
        proof {
            use_type_invariant(self);
            use_type_invariant(rhs);
        }
        let n = self.data.len();
        let mut data: Vec<i32> = Vec::new();
        let mut k: usize = 0;
        while k < n
            invariant
                n == self.data@.len(),
                n == rhs.data@.len(),
                k <= n,
                data@.len() == k,
                forall|i: int| 0 <= i < k ==> data@[i] == wrap(self.data@[i] - rhs.data@[i]),
            decreases n - k,
        {
            data.push(self.data[k].wrapping_sub(rhs.data[k]));
            k += 1;
        }
        let m = Matrix { cols: self.cols, rows: self.rows, data };
        proof {
            let g = self@.minus(rhs@);
            assert forall|c: int| 0 <= c < self.cols implies m@.columns[c] =~= g.columns[c] by {
                assert forall|r: int| 0 <= r < self.rows implies m@.columns[c][r] == g.columns[c][r] by {
                    Self::lemma_cell_index(self.cols as int, self.rows as int, c, r);
                }
            }
            assert(m@.columns =~= g.columns);
        }
        Ok(m)
    }
}

/// The columns as sequences.
pub open spec fn columns_of<T>(data: Seq<Vec<T>>) -> Seq<Seq<T>> {
    Seq::new(data.len(), |i: int| data[i]@)
}

/// Whether all the columns have the length of the first.
pub open spec fn equal_lengths<T>(data: Seq<Vec<T>>) -> bool {
    forall|i: int| 0 <= i < data.len() ==> (#[trigger] data[i])@.len() == data[0]@.len()
}

} // verus!
