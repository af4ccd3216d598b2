//! Graphs from the numbers of a text: one line of numbers for each row of an
//! adjacency matrix, and an empty line after each matrix but the last.
pub mod tokens;

use vstd::prelude::*;
use crate::graph::graph::{views, Graph};
use crate::matrix::grid::Grid;
use crate::matrix::matrix::{Matrix, MultiplyError};
use crate::data_parser::tokens::{numbers_in, numbers_of};

verus! {

/// Turns the lines of a text into graphs.
pub struct DataParser {}

/// What has been read of a text: the graphs that are complete, and the
/// numbers and the count of the lines of the matrix that is being read.
pub struct Progress {
    /// The adjacency matrices of the graphs read so far.
    pub graphs: Seq<Grid<i32>>,
    /// The numbers of the lines since the last empty line.
    pub numbers: Seq<i32>,
    /// How many lines these numbers came from.
    pub rows: nat,
}

/// The place of `(c, r)` in a square matrix of `rows` rows that is written
/// row after row lies inside it.
proof fn lemma_row_major_index(rows: int, c: int, r: int)
    by (nonlinear_arith)
    requires
        0 <= c < rows,
        0 <= r < rows,
    ensures
        0 <= r * rows <= r * rows + c < rows * rows,
{
}

impl DataParser {
    /// The adjacency matrix that `rows` lines of `rows` numbers each
    /// describe: the number at place `c` of line `r` is the element in
    /// column `c` and row `r`.
    pub open spec fn matrix_of(numbers: Seq<i32>, rows: nat) -> Grid<i32> {
        Grid::build(rows, rows, |c: int, r: int| numbers[r * rows + c])
    }

    /// What an empty line, or the end of the text, makes of the lines read
    /// since the last empty line: one more graph, where there is a line and
    /// the numbers fill a square. No line at all is a `DimensionMismatch`,
    /// another count of numbers is `NotSquare`.
    pub open spec fn closed(numbers: Seq<i32>, rows: nat) -> Result<Grid<i32>, MultiplyError> {
        if rows == 0 {
            Err(MultiplyError::DimensionMismatch)
        } else if numbers.len() != rows * rows {
            Err(MultiplyError::NotSquare)
        } else {
            Ok(Self::matrix_of(numbers, rows))
        }
    }

    /// What has been read after the first `k` lines. An empty line stands
    /// as `None`, another line as the numbers it holds.
    pub open spec fn progress(lines: Seq<Option<Seq<i32>>>, k: nat) -> Result<Progress, MultiplyError>
        decreases k,
    {
        if k == 0 {
            Ok(Progress { graphs: Seq::empty(), numbers: Seq::empty(), rows: 0 })
        } else {
            match Self::progress(lines, (k - 1) as nat) {
                Err(e) => Err(e),
                Ok(before) => match lines[k - 1] {
                    Some(row) => Ok(
                        Progress { graphs: before.graphs, numbers: before.numbers + row, rows: before.rows + 1 },
                    ),
                    None => match Self::closed(before.numbers, before.rows) {
                        Err(e) => Err(e),
                        Ok(graph) => Ok(
                            Progress { graphs: before.graphs.push(graph), numbers: Seq::empty(), rows: 0 },
                        ),
                    },
                },
            }
        }
    }

    /// The adjacency matrices that the lines describe, or the first fault
    /// in them. The last matrix needs no empty line after it.
    pub open spec fn graphs_of(lines: Seq<Option<Seq<i32>>>) -> Result<Seq<Grid<i32>>, MultiplyError> {
        match Self::progress(lines, lines.len()) {
            Err(e) => Err(e),
            Ok(read) => if read.rows == 0 {
                Ok(read.graphs)
            } else {
                match Self::closed(read.numbers, read.rows) {
                    Err(e) => Err(e),
                    Ok(graph) => Ok(read.graphs.push(graph)),
                }
            },
        }
    }

    /// The lines as mathematical values.
    pub open spec fn rows_of(lines: Seq<Option<Vec<i32>>>) -> Seq<Option<Seq<i32>>> {
        Seq::new(
            lines.len(),
            |i: int|
                match lines[i] {
                    Some(row) => Some(row@),
                    None => None,
                },
        )
    }

    /// What the lines of a text hold: an empty line holds nothing, another
    /// line holds its numbers, which may be none.
    pub open spec fn rows_of_text(lines: Seq<String>) -> Seq<Option<Seq<i32>>> {
        Seq::new(
            lines.len(),
            |i: int|
                if lines[i]@.len() == 0 {
                    None
                } else {
                    Some(numbers_of(lines[i]@))
                },
        )
    }

    /// Adds to `graphs` the graph that `rows` lines of numbers describe,
    /// where `matrix_rows` holds the numbers of the first line, then those
    /// of the second, and so on.
    ///
    /// Fails with `DimensionMismatch` where there is no line, and with
    /// `NotSquare` where the numbers do not fill a square of `rows` rows.
    /// `graphs` is then left as it is.
    pub fn add_graph(graphs: &mut Vec<Graph>, matrix_rows: &Vec<i32>, rows: usize) -> (res: Result<
        (),
        MultiplyError,
    >)
        ensures
            res is Ok <==> Self::closed(matrix_rows@, rows as nat) is Ok,
            res is Ok ==> views(final(graphs)@) == views(old(graphs)@).push(
                Self::closed(matrix_rows@, rows as nat)->Ok_0,
            ),
            res is Err ==> res->Err_0 == Self::closed(matrix_rows@, rows as nat)->Err_0 && final(graphs)@ == old(
                graphs,
            )@,
    {
        if rows == 0 {
            return Err(MultiplyError::DimensionMismatch);
        }
        let count = matrix_rows.len();
        let fits = match rows.checked_mul(rows) {
            Some(size) => size == count,
            None => false,
        };
        if !fits {
            return Err(MultiplyError::NotSquare);
        }
        let mut matrix = Matrix::new(rows, rows);
        proof {
            matrix.lemma_view_wf();
        }
        let mut col: usize = 0;
        while col < rows
            invariant
                matrix_rows@.len() == rows * rows <= usize::MAX,
                matrix@.wf(),
                matrix@.cols() == rows && matrix@.rows == rows,
                col <= rows,
                forall|c: int, r: int|
                    0 <= c < col && 0 <= r < rows ==> matrix@.at(c, r) == matrix_rows@[r * rows + c],
            decreases rows - col,
        {
            let mut row: usize = 0;
            while row < rows
                invariant
                    matrix_rows@.len() == rows * rows <= usize::MAX,
                    matrix@.wf(),
                    matrix@.cols() == rows && matrix@.rows == rows,
                    col < rows,
                    row <= rows,
                    forall|c: int, r: int|
                        0 <= c < col && 0 <= r < rows ==> matrix@.at(c, r) == matrix_rows@[r * rows + c],
                    forall|r: int| 0 <= r < row ==> matrix@.at(col as int, r) == matrix_rows@[r * rows + col],
                decreases rows - row,
            {
                proof {
                    lemma_row_major_index(rows as int, col as int, row as int);
                    matrix@.lemma_update(col as int, row as int, matrix_rows@[row * rows + col]);
                }
                matrix.put(col, row, matrix_rows[row * rows + col]);
                row += 1;
            }
            col += 1;
        }
        proof {
            let g = Self::matrix_of(matrix_rows@, rows as nat);
            assert(g.wf() && g.cols() == rows && g.rows == rows);
            assert forall|c: int, r: int| matrix@.has(c, r) implies matrix@.at(c, r) == g.at(c, r) by {
                lemma_row_major_index(rows as int, c, r);
            }
            matrix@.lemma_same_is_equal(g);
        }
        let ghost before = graphs@;
        graphs.push(Graph::new(matrix));
        proof {
            assert(views(graphs@) =~= views(before).push(Self::matrix_of(matrix_rows@, rows as nat)));
        }
        Ok(())
    }

    /// The graphs that the lines of a text describe, in their order. An
    /// empty line stands as `None`, another line as the numbers it holds.
    ///
    /// Fails at the first empty line, or at the end, where the lines before
    /// it do not describe a square matrix: as `add_graph` fails.
    pub fn parse_lines(lines: &Vec<Option<Vec<i32>>>) -> (res: Result<Vec<Graph>, MultiplyError>)
        ensures
            res is Ok <==> Self::graphs_of(Self::rows_of(lines@)) is Ok,
            res is Ok ==> views(res->Ok_0@) == Self::graphs_of(Self::rows_of(lines@))->Ok_0,
            res is Err ==> res->Err_0 == Self::graphs_of(Self::rows_of(lines@))->Err_0,
    {
        let ghost rows_read = Self::rows_of(lines@);
        let mut graphs: Vec<Graph> = Vec::new();
        let mut matrix_rows: Vec<i32> = Vec::new();
        let mut rows: usize = 0;
        let mut k: usize = 0;
        proof {
            assert(views(graphs@) =~= Seq::empty());
        }
        while k < lines.len()
            invariant
                k <= lines@.len(),
                rows <= k,
                rows_read == Self::rows_of(lines@),
                Self::progress(rows_read, k as nat) == Ok::<Progress, MultiplyError>(
                    Progress { graphs: views(graphs@), numbers: matrix_rows@, rows: rows as nat },
                ),
            decreases lines@.len() - k,
        {
            match &lines[k] {
                Some(row) => {
                    let ghost before = matrix_rows@;
                    let mut i: usize = 0;
                    while i < row.len()
                        invariant
                            i <= row@.len(),
                            matrix_rows@ == before + row@.subrange(0, i as int),
                        decreases row@.len() - i,
                    {
                        matrix_rows.push(row[i]);
                        i += 1;
                        assert(matrix_rows@ =~= before + row@.subrange(0, i as int));
                    }
                    assert(row@.subrange(0, i as int) =~= row@);
                    rows += 1;
                },
                None => {
                    match Self::add_graph(&mut graphs, &matrix_rows, rows) {
                        Ok(()) => {},
                        Err(e) => {
                            proof {
                                Self::lemma_fault_stays(rows_read, (k + 1) as nat, lines@.len());
                            }
                            return Err(e);
                        },
                    }
                    matrix_rows = Vec::new();
                    rows = 0;
                },
            }
            k += 1;
        }
        if rows != 0 {
            match Self::add_graph(&mut graphs, &matrix_rows, rows) {
                Ok(()) => {},
                Err(e) => {
                    return Err(e);
                },
            }
        }
        Ok(graphs)
    }

    /// The graphs that the lines of a text describe, in their order. Every
    /// line holds the numbers of one row of an adjacency matrix, with white
    /// space between them, and an empty line ends a matrix. What stands
    /// between white space and is no number is passed over.
    ///
    /// Fails at the first empty line, or at the end, where the lines before
    /// it do not describe a square matrix: as `add_graph` fails.
    pub fn parse_graph_input(lines: &Vec<String>) -> (res: Result<Vec<Graph>, MultiplyError>)
        ensures
            res is Ok <==> Self::graphs_of(Self::rows_of_text(lines@)) is Ok,
            res is Ok ==> views(res->Ok_0@) == Self::graphs_of(Self::rows_of_text(lines@))->Ok_0,
            res is Err ==> res->Err_0 == Self::graphs_of(Self::rows_of_text(lines@))->Err_0,
    {
        let mut rows: Vec<Option<Vec<i32>>> = Vec::new();
        let mut k: usize = 0;
        while k < lines.len()
            invariant
                k <= lines@.len(),
                rows@.len() == k,
                forall|i: int| 0 <= i < k ==> Self::rows_of(rows@)[i] == Self::rows_of_text(lines@)[i],
            decreases lines@.len() - k,
        {
            let line = lines[k].as_str();
            let ghost before = rows@;
            if line.is_empty() {
                rows.push(None);
            } else {
                rows.push(Some(numbers_in(line)));
            }
            proof {
                assert forall|i: int| 0 <= i < k + 1 implies Self::rows_of(rows@)[i] == Self::rows_of_text(
                    lines@,
                )[i] by {
                    if i < k {
                        assert(rows@[i] == before[i]);
                        assert(Self::rows_of(before)[i] == Self::rows_of_text(lines@)[i]);
                    }
                }
            }
            k += 1;
        }
        proof {
            assert(Self::rows_of(rows@) =~= Self::rows_of_text(lines@));
        }
        Self::parse_lines(&rows)
    }

    /// A fault that has been met stays: more lines do not mend it.
    pub proof fn lemma_fault_stays(lines: Seq<Option<Seq<i32>>>, k: nat, n: nat)
        requires
            k <= n,
            Self::progress(lines, k) is Err,
        ensures
            Self::progress(lines, n) == Self::progress(lines, k),
        decreases n,
    {
        if k < n {
            Self::lemma_fault_stays(lines, k, (n - 1) as nat);
        }
    }
}

} // verus!
