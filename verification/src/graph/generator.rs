//! Graphs with one edge between every two vertices, in one direction or the
//! other, made from a list of choices.
//!
//! The pairs of vertices are numbered along the diagonals of a square, as
//! Cantor numbered the pairs of natural numbers.
use vstd::prelude::*;
use crate::graph::graph::Graph;
use crate::matrix::grid::Grid;
use crate::matrix::matrix::Matrix;

verus! {

/// The sum of the numbers from one to `n`.
pub open spec fn triangle(n: nat) -> nat
    decreases n,
{
    if n == 0 {
        0
    } else {
        triangle((n - 1) as nat) + n
    }
}

/// The number of the pair `(x, y)`: the pairs are counted diagonal by
/// diagonal, and along the diagonal of the sum `x + y` by rising `y`.
pub open spec fn cantor(x: nat, y: nat) -> nat {
    triangle(x + y) + y
}

/// Twice the sum of the numbers up to `n` is `n * (n + 1)`.
pub proof fn lemma_triangle_formula(n: nat)
    ensures
        2 * triangle(n) == n * (n + 1),
    decreases n,
{
    if n > 0 {
        lemma_triangle_formula((n - 1) as nat);
        assert((n - 1) * n + 2 * n == n * (n + 1)) by (nonlinear_arith);
    } else {
        assert(0 * (0 + 1) == 0) by (nonlinear_arith);
    }
}

/// The sums of the numbers up to `n` rise with `n`.
pub proof fn lemma_triangle_rises(a: nat, b: nat)
    requires
        a <= b,
    ensures
        triangle(a) <= triangle(b),
    decreases b,
{
    if a < b {
        lemma_triangle_rises(a, (b - 1) as nat);
    }
}

/// A pair whose number is below the sum of the numbers up to `k` lies on a
/// diagonal below `k`.
pub proof fn lemma_cantor_diagonal(x: nat, y: nat, k: nat)
    ensures
        cantor(x, y) < triangle(k) <==> x + y < k,
{
    if x + y < k {
        lemma_triangle_rises(x + y + 1, k);
    } else {
        lemma_triangle_rises(k, x + y);
    }
}

/// No two pairs have the same number.
pub proof fn lemma_cantor_injective(x: nat, y: nat, x2: nat, y2: nat)
    requires
        cantor(x, y) == cantor(x2, y2),
    ensures
        x == x2,
        y == y2,
{
    lemma_cantor_diagonal(x, y, x2 + y2);
    lemma_cantor_diagonal(x, y, x2 + y2 + 1);
    lemma_cantor_diagonal(x2, y2, x + y);
    lemma_cantor_diagonal(x2, y2, x + y + 1);
    if x + y < x2 + y2 {
        lemma_triangle_rises(x + y + 1, x2 + y2);
    } else if x2 + y2 < x + y {
        lemma_triangle_rises(x2 + y2 + 1, x + y);
    }
}

/// The pair of natural numbers that has the number `z`.
pub fn inverse_cantor(z: i32) -> (pair: (i32, i32))
    requires
        z >= 0,
    ensures
        pair.0 >= 0,
        pair.1 >= 0,
        cantor(pair.0 as nat, pair.1 as nat) == z,
{
    let target = z as u64;
    let mut low: u64 = 0;
    let mut high: u64 = 65536;
    proof {
        lemma_triangle_formula(65536);
    }
    while high - low > 1
        invariant
            low < high <= 65536,
            target == z,
            triangle(low as nat) <= target < triangle(high as nat),
        decreases high - low,
    {
        let middle = low + (high - low) / 2;
        proof {
            lemma_triangle_formula(middle as nat);
            assert(middle * (middle + 1) <= 65536 * 65537) by (nonlinear_arith)
                requires
                    0 <= middle <= 65536,
            ;
        }
        if middle * (middle + 1) / 2 <= target {
            low = middle;
        } else {
            high = middle;
        }
    }
    proof {
        lemma_triangle_formula(low as nat);
        assert(low * (low + 1) <= 65536 * 65537) by (nonlinear_arith)
            requires
                0 <= low <= 65536,
        ;
    }
    let y = target - low * (low + 1) / 2;
    let x = low - y;
    (x as i32, y as i32)
}

/// The number of pairs of different vertices of a graph of `size` vertices.
pub open spec fn pair_count(size: nat) -> nat {
    if size == 0 {
        0
    } else {
        triangle((size - 1) as nat)
    }
}

/// The number of the pair of the two different vertices `c` and `r` of a
/// graph of `size` vertices.
pub open spec fn pair_number(size: int, c: int, r: int) -> nat {
    if c > r {
        cantor((size - 1 - c) as nat, r as nat)
    } else {
        cantor((size - 1 - r) as nat, c as nat)
    }
}

/// The element in column `c` and row `r` of the adjacency matrix that the
/// first `done` choices give: one where the pair of `c` and `r` has a
/// number below `done` and its edge begins at `c`, else zero. The edge of a
/// pair begins at the vertex of the higher number, and where the choice of
/// the pair is `true` at the other.
pub open spec fn edge(size: int, reversed: Seq<bool>, done: nat, c: int, r: int) -> i32 {
    if c == r || pair_number(size, c, r) >= done {
        0
    } else if (c > r) != reversed[pair_number(size, c, r) as int] {
        1
    } else {
        0
    }
}

/// The adjacency matrix of the graph of `size` vertices that the choices
/// give: between every two vertices one edge of weight one.
pub open spec fn generated(size: nat, reversed: Seq<bool>) -> Grid<i32> {
    Grid::build(size, size, |c: int, r: int| edge(size as int, reversed, reversed.len(), c, r))
}

/// Every pair of different vertices of a graph of `size` vertices has a
/// number below the count of such pairs.
pub proof fn lemma_pair_number_bound(size: int, c: int, r: int)
    requires
        0 <= c < size,
        0 <= r < size,
        c != r,
    ensures
        pair_number(size, c, r) < pair_count(size as nat),
{
    if c > r {
        lemma_cantor_diagonal((size - 1 - c) as nat, r as nat, (size - 1) as nat);
    } else {
        lemma_cantor_diagonal((size - 1 - r) as nat, c as nat, (size - 1) as nat);
    }
}

/// The graph of `size` vertices with one edge between every two vertices.
/// The edge of the pair with the number `z` runs from the vertex of the
/// higher number to the other, and the other way round where
/// `reversed[z]` holds.
///
/// `reversed` holds one choice for each pair of vertices.
pub fn generate_ping_pong(size: i32, reversed: &Vec<bool>) -> (graph: Graph)
    requires
        size >= 0,
        size * size <= usize::MAX,
        reversed@.len() == pair_count(size as nat) <= i32::MAX,
    ensures
        graph@ == generated(size as nat, reversed@),
{
    let side = size as usize;
    let mut m = Matrix::new(side, side);
    let pairs = reversed.len() as i32;
    proof {
        m.lemma_view_wf();
    }
    let mut z: i32 = 0;
    while z < pairs
        invariant
            size >= 0,
            side == size,
            pairs == reversed@.len() == pair_count(size as nat),
            0 <= z <= pairs,
            m@.wf(),
            m@.cols() == size && m@.rows == size,
            forall|c: int, r: int| m@.has(c, r) ==> m@.at(c, r) == edge(size as int, reversed@, z as nat, c, r),
        decreases pairs - z,
    {
        let (x, y) = inverse_cantor(z);
        proof {
            lemma_cantor_diagonal(x as nat, y as nat, (size - 1) as nat);
        }
        let high = size - 1 - x;
        let (from, to) = if reversed[z as usize] {
            (y, high)
        } else {
            (high, y)
        };
        let ghost before = m@;
        proof {
            before.lemma_update(from as int, to as int, 1);
        }
        m.put(from as usize, to as usize, 1);
        proof {
            assert(pair_number(size as int, from as int, to as int) == z);
            assert(pair_number(size as int, to as int, from as int) == z);
            assert forall|c: int, r: int| m@.has(c, r) implies m@.at(c, r) == edge(
                size as int,
                reversed@,
                (z + 1) as nat,
                c,
                r,
            ) by {
                if c != r && pair_number(size as int, c, r) == z {
                    if c > r {
                        lemma_cantor_injective((size - 1 - c) as nat, r as nat, x as nat, y as nat);
                    } else {
                        lemma_cantor_injective((size - 1 - r) as nat, c as nat, x as nat, y as nat);
                    }
                }
            }
        }
        z += 1;
    }
    proof {
        let g = generated(size as nat, reversed@);
        assert(g.wf() && g.cols() == size && g.rows == size);
        m@.lemma_same_is_equal(g);
    }
    Graph::new(m)
}

} // verus!
