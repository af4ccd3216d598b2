//! The mathematical model of a matrix: its columns, each a sequence of rows.
use vstd::prelude::*;

verus! {

/// A matrix as a mathematical value: `columns[c][r]` is the element in column
/// `c` and row `r`.
pub struct Grid<T> {
    /// The number of rows, which is the length of every column.
    pub rows: nat,
    /// The columns, from the first to the last.
    pub columns: Seq<Seq<T>>,
}

impl<T> Grid<T> {
    /// The number of columns.
    pub open spec fn cols(self) -> nat {
        self.columns.len()
    }

    /// Every column has `rows` elements.
    pub open spec fn wf(self) -> bool {
        forall|c: int| 0 <= c < self.columns.len() ==> (#[trigger] self.columns[c]).len() == self.rows
    }

    /// Whether `(col, row)` names an element.
    pub open spec fn has(self, col: int, row: int) -> bool {
        0 <= col < self.cols() && 0 <= row < self.rows
    }

    /// The element in column `col` and row `row`.
    pub open spec fn at(self, col: int, row: int) -> T
        recommends
            self.has(col, row),
    {
        self.columns[col][row]
    }

    /// As many columns as rows.
    pub open spec fn is_square(self) -> bool {
        self.cols() == self.rows
    }

    /// The grid of the given shape whose element at `(c, r)` is `f(c, r)`.
    pub open spec fn build(cols: nat, rows: nat, f: spec_fn(int, int) -> T) -> Grid<T> {
        Grid { rows, columns: Seq::new(cols, |c: int| Seq::new(rows, |r: int| f(c, r))) }
    }

    /// The grid with `cols` columns that `data` holds column after column.
    /// Its number of rows is `data.len() / cols`.
    pub open spec fn from_flat(cols: nat, data: Seq<T>) -> Grid<T>
        recommends
            cols > 0,
            data.len() % cols == 0,
    {
        let rows = data.len() / cols;
        Grid::build(cols, rows, |c: int, r: int| data[c * rows + r])
    }

    /// The grid with the given columns. Its number of rows is the length of
    /// the first column, and zero where there is no column.
    pub open spec fn from_columns(columns: Seq<Seq<T>>) -> Grid<T> {
        Grid { rows: if columns.len() == 0 { 0 } else { columns[0].len() }, columns }
    }

    /// The grid that differs from this one at `(col, row)` only, where it
    /// holds `value`.
    pub open spec fn update(self, col: int, row: int, value: T) -> Grid<T>
        recommends
            self.has(col, row),
    {
        Grid { rows: self.rows, columns: self.columns.update(col, self.columns[col].update(row, value)) }
    }

    /// The same shape and the same element at every place.
    pub open spec fn same_as(self, other: Grid<T>) -> bool {
        &&& self.rows == other.rows
        &&& self.cols() == other.cols()
        &&& forall|c: int, r: int| self.has(c, r) ==> self.at(c, r) == other.at(c, r)
    }

    /// Well-formed grids of one shape with the same elements are one grid.
    pub proof fn lemma_same_is_equal(self, other: Grid<T>)
        requires
            self.wf(),
            other.wf(),
            self.same_as(other),
        ensures
            self == other,
    {
        assert forall|c: int| 0 <= c < self.columns.len() implies self.columns[c] =~= other.columns[c] by {
            assert forall|r: int| 0 <= r < self.columns[c].len() implies self.columns[c][r] == other.columns[c][r] by {
                assert(self.has(c, r));
                assert(self.at(c, r) == other.at(c, r));
            }
        }
        assert(self.columns =~= other.columns);
    }

    /// What `update` changes: the element at `(col, row)` and nothing else.
    pub proof fn lemma_update(self, col: int, row: int, value: T)
        requires
            self.wf(),
            self.has(col, row),
        ensures
            self.update(col, row, value).wf(),
            self.update(col, row, value).rows == self.rows,
            self.update(col, row, value).cols() == self.cols(),
            self.update(col, row, value).at(col, row) == value,
            forall|c: int, r: int|
                self.has(c, r) && (c != col || r != row) ==> #[trigger] self.update(col, row, value).at(c, r)
                    == self.at(c, r),
    {
        let g = self.update(col, row, value);
        assert forall|c: int| 0 <= c < g.columns.len() implies (#[trigger] g.columns[c]).len() == g.rows by {
            assert(self.columns[c].len() == self.rows);
        }
    }

    /// What `build` makes: a well-formed grid of the given shape that holds
    /// `f(c, r)` at `(c, r)`.
    pub proof fn lemma_build(cols: nat, rows: nat, f: spec_fn(int, int) -> T)
        ensures
            Self::build(cols, rows, f).wf(),
            Self::build(cols, rows, f).cols() == cols,
            Self::build(cols, rows, f).rows == rows,
            forall|c: int, r: int|
                0 <= c < cols && 0 <= r < rows ==> #[trigger] Self::build(cols, rows, f).at(c, r) == f(c, r),
    {
    }
}

} // verus!
