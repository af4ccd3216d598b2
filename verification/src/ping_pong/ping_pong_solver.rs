//! The solver: which vertices does every other vertex reach by one edge or
//! by two?
use vstd::prelude::*;
use crate::console_arguments::MultiplicationMethod;
use crate::graph::graph::Graph;
use crate::matrix::grid::Grid;
use crate::matrix::matrix::MultiplyError;
use crate::matrix::ring::{wrap, lemma_wrap_congruent};

verus! {

/// Whether vertex `v` qualifies: for every other vertex `u`, the adjacency
/// matrix `a` or its square holds something other than zero in column `u`
/// and row `v`, which tells an edge from `u` to `v`, or a vertex between the
/// two with an edge from `u` and an edge to `v`.
pub open spec fn qualifies(a: Grid<i32>, square: Grid<i32>, v: int) -> bool {
    forall|u: int| 0 <= u < a.rows && u != v ==> a.at(u, v) != 0 || square.at(u, v) != 0
}

/// The vertices below `k` that qualify, in rising order.
pub open spec fn qualifying_below(a: Grid<i32>, square: Grid<i32>, k: nat) -> Seq<usize>
    decreases k,
{
    if k == 0 {
        Seq::empty()
    } else if qualifies(a, square, k - 1) {
        qualifying_below(a, square, (k - 1) as nat).push((k - 1) as usize)
    } else {
        qualifying_below(a, square, (k - 1) as nat)
    }
}

/// What the solver answers for a graph with adjacency matrix `a`: the
/// vertices that qualify, in rising order, or why `method` cannot square
/// `a`.
pub open spec fn solution(method: MultiplicationMethod, a: Grid<i32>) -> Result<Seq<usize>, MultiplyError> {
    match method.product(a, a) {
        Ok(square) => Ok(qualifying_below(a, square, a.rows)),
        Err(e) => Err(e),
    }
}

/// The answer names the vertices that qualify and no others, each once, in
/// rising order.
pub proof fn lemma_qualifying_below(a: Grid<i32>, square: Grid<i32>, k: nat)
    requires
        k <= usize::MAX,
    ensures
        forall|v: usize|
            #[trigger] qualifying_below(a, square, k).contains(v) <==> v < k && qualifies(a, square, v as int),
        forall|i: int, j: int|
            0 <= i < j < qualifying_below(a, square, k).len() ==> qualifying_below(a, square, k)[i]
                < qualifying_below(a, square, k)[j],
    decreases k,
{
    let s = qualifying_below(a, square, k);
    if k > 0 {
        let prev = qualifying_below(a, square, (k - 1) as nat);
        lemma_qualifying_below(a, square, (k - 1) as nat);
        let last = (k - 1) as usize;
        if qualifies(a, square, k - 1) {
            assert(s == prev.push(last));
            assert(s.len() == prev.len() + 1);
            assert(s[prev.len() as int] == last);
            assert forall|i: int| 0 <= i < prev.len() implies s[i] == prev[i] && prev[i] < last by {
                assert(prev.contains(prev[i]));
            }
            assert forall|v: usize| #[trigger] s.contains(v) implies v < k && qualifies(a, square, v as int) by {
                let i = choose|i: int| 0 <= i < s.len() && s[i] == v;
                if i < prev.len() {
                    assert(prev[i] == v);
                    assert(prev.contains(v));
                } else {
                    assert(v == last);
                }
            }
            assert forall|v: usize| v < k && qualifies(a, square, v as int) implies #[trigger] s.contains(v) by {
                if v == last {
                    assert(s[prev.len() as int] == v);
                } else {
                    assert(v < k - 1);
                    assert(prev.contains(v));
                    let i = choose|i: int| 0 <= i < prev.len() && prev[i] == v;
                    assert(s[i] == v);
                }
            }
            assert forall|i: int, j: int| 0 <= i < j < s.len() implies s[i] < s[j] by {
                if j < prev.len() {
                    assert(prev[i] < prev[j]);
                } else {
                    assert(s[j] == last);
                }
            }
        } else {
            assert(s == prev);
            assert forall|v: usize| v < k && qualifies(a, square, v as int) implies #[trigger] s.contains(v) by {
                assert(v != last);
                assert(prev.contains(v));
            }
        }
    } else {
        assert(s.len() == 0);
    }
}

/// The answer does not depend on the method: for any adjacency matrix, the
/// three methods give the same vertices or the same error.
pub proof fn lemma_solution_same_for_methods(a: Grid<i32>, first: MultiplicationMethod, second: MultiplicationMethod)
    ensures
        solution(first, a) == solution(second, a),
{
}

/// Whether the graph has an edge of weight one from every vertex to every
/// other vertex. What it holds on the diagonal does not matter.
pub open spec fn is_complete(a: Grid<i32>) -> bool {
    &&& a.is_square()
    &&& forall|u: int, v: int| 0 <= u < a.rows && 0 <= v < a.rows && u != v ==> a.at(u, v) == 1
}

/// In the complete graph every vertex qualifies.
pub proof fn lemma_complete_graph(a: Grid<i32>, method: MultiplicationMethod)
    requires
        is_complete(a),
        a.rows <= usize::MAX,
    ensures
        solution(method, a) == Ok::<Seq<usize>, MultiplyError>(Seq::new(a.rows, |v: int| v as usize)),
{
    let square = a.times(a);
    assert(method.product(a, a) == Ok::<Grid<i32>, MultiplyError>(square));
    lemma_all_qualify(a, square, a.rows);
}

/// Where every vertex below `k` qualifies, the answer up to `k` names them
/// all.
proof fn lemma_all_qualify(a: Grid<i32>, square: Grid<i32>, k: nat)
    requires
        k <= usize::MAX,
        forall|v: int| 0 <= v < k ==> qualifies(a, square, v),
    ensures
        qualifying_below(a, square, k) == Seq::new(k, |v: int| v as usize),
    decreases k,
{
    if k > 0 {
        lemma_all_qualify(a, square, (k - 1) as nat);
        assert(qualifies(a, square, k - 1));
        assert(qualifying_below(a, square, k) =~= Seq::new(k, |v: int| v as usize));
    } else {
        assert(qualifying_below(a, square, k) =~= Seq::new(k, |v: int| v as usize));
    }
}

/// Whether vertex `v` has no edge: its row and its column hold zeros only.
pub open spec fn is_isolated(a: Grid<i32>, v: int) -> bool {
    forall|u: int| 0 <= u < a.rows ==> a.at(u, v) == 0 && a.at(v, u) == 0
}

/// Along a row of zeros every sum of products is zero.
proof fn lemma_dot_of_zero_row(a: Grid<i32>, b: Grid<i32>, col: int, row: int, k: nat)
    requires
        forall|i: int| 0 <= i < k ==> a.at(i, row) == 0,
    ensures
        a.dot(b, col, row, k) == 0,
    decreases k,
{
    if k > 0 {
        lemma_dot_of_zero_row(a, b, col, row, (k - 1) as nat);
        assert(a.at(k - 1, row) == 0);
        assert(0 * b.at(col, k - 1) == 0);
    }
}

/// A vertex without an edge does not qualify in a graph of two vertices or
/// more. (The only vertex of a graph qualifies, for want of another.)
pub proof fn lemma_isolated_vertex(a: Grid<i32>, method: MultiplicationMethod, v: int)
    requires
        a.is_square(),
        2 <= a.rows <= usize::MAX,
        0 <= v < a.rows,
        is_isolated(a, v),
    ensures
        solution(method, a) is Ok,
        !solution(method, a)->Ok_0.contains(v as usize),
{
    let square = a.times(a);
    assert(method.product(a, a) == Ok::<Grid<i32>, MultiplyError>(square));
    let u = if v == 0 { 1int } else { 0int };
    lemma_dot_of_zero_row(a, a, u, v, a.cols());
    assert(square.at(u, v) == wrap(a.dot(a, u, v, a.cols())));
    assert(a.at(u, v) == 0);
    assert(!qualifies(a, square, v));
    lemma_qualifying_below(a, square, a.rows);
}

/// Whether the grid holds zeros and ones only, as the adjacency matrix of a
/// graph without weights does.
pub open spec fn is_adjacency(a: Grid<i32>) -> bool {
    forall|c: int, r: int| a.has(c, r) ==> a.at(c, r) == 0 || a.at(c, r) == 1
}

/// Whether the graph has a vertex `w` with an edge from `u` to `w` and an
/// edge from `w` to `v`.
pub open spec fn has_path_of_two(a: Grid<i32>, u: int, v: int) -> bool {
    exists|w: int| 0 <= w < a.cols() && a.at(u, w) != 0 && a.at(w, v) != 0
}

/// In a matrix of zeros and ones, the sum of the first `k` products for
/// column `u` and row `v` counts the vertices below `k` that lie between
/// `u` and `v`.
proof fn lemma_dot_counts_paths(a: Grid<i32>, u: int, v: int, k: nat)
    requires
        a.wf(),
        a.is_square(),
        is_adjacency(a),
        k <= a.cols(),
        0 <= u < a.cols(),
        0 <= v < a.cols(),
    ensures
        0 <= a.dot(a, u, v, k) <= k,
        a.dot(a, u, v, k) != 0 <==> exists|w: int| 0 <= w < k && a.at(u, w) != 0 && a.at(w, v) != 0,
    decreases k,
{
    if k > 0 {
        lemma_dot_counts_paths(a, u, v, (k - 1) as nat);
        let x = a.at(k - 1, v);
        let y = a.at(u, k - 1);
        assert(a.has(k - 1, v) && a.has(u, k - 1));
        assert(x * y == (if x != 0 && y != 0 {
            1int
        } else {
            0int
        })) by (nonlinear_arith)
            requires
                x == 0 || x == 1,
                y == 0 || y == 1,
        ;
        if a.dot(a, u, v, k) != 0 {
            if x != 0 && y != 0 {
                assert(a.at(u, k - 1) != 0 && a.at(k - 1, v) != 0);
            } else {
                let w = choose|w: int| 0 <= w < k - 1 && a.at(u, w) != 0 && a.at(w, v) != 0;
                assert(0 <= w < k && a.at(u, w) != 0 && a.at(w, v) != 0);
            }
        }
        if exists|w: int| 0 <= w < k && a.at(u, w) != 0 && a.at(w, v) != 0 {
            let w = choose|w: int| 0 <= w < k && a.at(u, w) != 0 && a.at(w, v) != 0;
            if w < k - 1 {
                assert(0 <= w < k - 1 && a.at(u, w) != 0 && a.at(w, v) != 0);
            }
        }
    }
}

/// What the square tells: in a graph without weights, and of no more
/// vertices than 32 bits count, the square of the adjacency matrix holds
/// something other than zero in column `u` and row `v` where there is a
/// path of two edges from `u` to `v`, and only there.
pub proof fn lemma_square_tells_paths(a: Grid<i32>, u: int, v: int)
    requires
        a.wf(),
        a.is_square(),
        is_adjacency(a),
        a.cols() <= i32::MAX,
        0 <= u < a.cols(),
        0 <= v < a.cols(),
    ensures
        a.times(a).at(u, v) != 0 <==> has_path_of_two(a, u, v),
{
    lemma_dot_counts_paths(a, u, v, a.cols());
    lemma_wrap_congruent(a.dot(a, u, v, a.cols()));
    assert(a.times(a).at(u, v) == wrap(a.dot(a, u, v, a.cols())));
}

/// What the answer means: in a graph without weights, and of no more
/// vertices than 32 bits count, a vertex qualifies where every other vertex
/// has an edge to it or a path of two edges to it, and only there.
pub proof fn lemma_qualifies_means_reached(a: Grid<i32>, v: int)
    requires
        a.wf(),
        a.is_square(),
        is_adjacency(a),
        a.cols() <= i32::MAX,
        0 <= v < a.cols(),
    ensures
        qualifies(a, a.times(a), v) <==> forall|u: int|
            0 <= u < a.rows && u != v ==> a.at(u, v) != 0 || #[trigger] has_path_of_two(a, u, v),
{
    assert forall|u: int| 0 <= u < a.rows implies (a.times(a).at(u, v) != 0 <==> #[trigger] has_path_of_two(
        a,
        u,
        v,
    )) by {
        lemma_square_tells_paths(a, u, v);
    }
    if qualifies(a, a.times(a), v) {
        assert forall|u: int| 0 <= u < a.rows && u != v implies a.at(u, v) != 0 || #[trigger] has_path_of_two(
            a,
            u,
            v,
        ) by {
            assert(a.at(u, v) != 0 || a.times(a).at(u, v) != 0);
        }
    }
    if forall|u: int| 0 <= u < a.rows && u != v ==> a.at(u, v) != 0 || #[trigger] has_path_of_two(a, u, v) {
        assert forall|u: int| 0 <= u < a.rows && u != v implies a.at(u, v) != 0 || a.times(a).at(u, v) != 0 by {
            assert(a.at(u, v) != 0 || has_path_of_two(a, u, v));
        }
    }
}

/// Finds the vertices of a graph that every other vertex reaches by one
/// edge or by two.
pub struct PingPongSolver {
    multiplication_algorithm: MultiplicationMethod,
}

impl PingPongSolver {
    /// The method by which this solver squares adjacency matrices.
    pub closed spec fn method(self) -> MultiplicationMethod {
        self.multiplication_algorithm
    }

    /// A solver that squares adjacency matrices by `mul_alg`.
    pub fn new(mul_alg: MultiplicationMethod) -> (solver: Self)
        ensures
            solver.method() == mul_alg,
    {
        PingPongSolver { multiplication_algorithm: mul_alg }
    }

    /// The vertices of `input` that qualify, in rising order.
    ///
    /// Fails as the multiplication does where the adjacency matrix is not
    /// square. The graph is left as it is.
    pub fn solve(&self, input: &Graph) -> (res: Result<Vec<usize>, MultiplyError>)
        ensures
            res is Ok <==> solution(self.method(), input@) is Ok,
            res is Ok ==> res->Ok_0@ == solution(self.method(), input@)->Ok_0,
            res is Err ==> res->Err_0 == solution(self.method(), input@)->Err_0,
    {
        let a = &input.adj_matrix;
        // The square is as large as `a`, whose count of elements is a `usize`.
        let _elements = a.len();
        let a_sq = match self.multiplication_algorithm.multiply(a, a) {
            Ok(m) => m,
            Err(e) => {
                return Err(e);
            },
        };
        let n = a.rows();
        let mut result: Vec<usize> = Vec::new();
        let mut row: usize = 0;
        while row < n
            invariant
                n == a@.rows == a@.cols(),
                a_sq@.cols() == n && a_sq@.rows == n,
                row <= n,
                result@ == qualifying_below(a@, a_sq@, row as nat),
            decreases n - row,
        {
            let mut has_x = true;
            let mut col: usize = 0;
            while col < n
                invariant_except_break
                    has_x,
                    forall|u: int| 0 <= u < col && u != row ==> a@.at(u, row as int) != 0 || a_sq@.at(u, row as int) != 0,
                invariant
                    n == a@.rows == a@.cols(),
                    a_sq@.cols() == n && a_sq@.rows == n,
                    row < n,
                    col <= n,
                ensures
                    has_x <==> qualifies(a@, a_sq@, row as int),
                decreases n - col,
            {
                if col != row && a.cell(col, row) == 0 && a_sq.cell(col, row) == 0 {
                    has_x = false;
                    break;
                }
                col += 1;
            }
            if has_x {
                result.push(row);
            }
            row += 1;
        }
        Ok(result)
    }
}

} // verus!
