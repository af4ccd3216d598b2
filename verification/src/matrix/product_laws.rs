//! What holds of the product of matrices: the three methods agree, the
//! identity changes nothing, and the order of two multiplications is free.
use vstd::prelude::*;
use crate::console_arguments::MultiplicationMethod;
use crate::matrix::grid::Grid;
use crate::matrix::matrix::MultiplyError;
use crate::matrix::ring::{
    congruent, wrap, lemma_congruent_add, lemma_congruent_elements, lemma_congruent_mul, lemma_congruent_sym,
    lemma_congruent_trans, lemma_wrap_congruent,
};

verus! {

/// For two square matrices of one size, every method answers the same: the
/// product.
pub proof fn lemma_methods_agree(a: Grid<i32>, b: Grid<i32>, first: MultiplicationMethod, second: MultiplicationMethod)
    requires
        a.is_square(),
        b.is_square(),
        a.cols() == b.cols(),
    ensures
        first.product(a, b) == second.product(a, b),
        first.product(a, b) == Ok::<Grid<i32>, MultiplyError>(a.times(b)),
{
}

/// Along a row of `a`, the sum of products with column `col` of the
/// identity picks the element of column `col`.
proof fn lemma_dot_identity_right(a: Grid<i32>, n: nat, col: int, row: int, k: nat)
    requires
        0 <= col < n,
        k <= n,
    ensures
        a.dot(Grid::identity(n), col, row, k) == (if col < k {
            a.at(col, row) as int
        } else {
            0
        }),
    decreases k,
{
    if k > 0 {
        lemma_dot_identity_right(a, n, col, row, (k - 1) as nat);
        let e = Grid::identity(n).at(col, k - 1);
        assert(e == (if col == k - 1 {
            1i32
        } else {
            0i32
        }));
        assert(a.at(k - 1, row) * e == (if col == k - 1 {
            a.at(k - 1, row) as int
        } else {
            0
        })) by (nonlinear_arith)
            requires
                e == 0 || e == 1,
                e == 1 <==> col == k - 1,
        ;
    }
}

/// Along row `row` of the identity, the sum of products with a column of
/// `a` picks the element of row `row`.
proof fn lemma_dot_identity_left(a: Grid<i32>, n: nat, col: int, row: int, k: nat)
    requires
        0 <= row < n,
        k <= n,
    ensures
        Grid::identity(n).dot(a, col, row, k) == (if row < k {
            a.at(col, row) as int
        } else {
            0
        }),
    decreases k,
{
    if k > 0 {
        lemma_dot_identity_left(a, n, col, row, (k - 1) as nat);
        let e = Grid::identity(n).at(k - 1, row);
        assert(e == (if row == k - 1 {
            1i32
        } else {
            0i32
        }));
        assert(e * a.at(col, k - 1) == (if row == k - 1 {
            a.at(col, k - 1) as int
        } else {
            0
        })) by (nonlinear_arith)
            requires
                e == 0 || e == 1,
                e == 1 <==> row == k - 1,
        ;
    }
}

/// The identity is neutral: a matrix times the identity of its number of
/// columns, and the identity of its number of rows times the matrix, are
/// the matrix.
pub proof fn lemma_identity_is_neutral(a: Grid<i32>)
    requires
        a.wf(),
    ensures
        a.times(Grid::identity(a.cols())) == a,
        Grid::identity(a.rows).times(a) == a,
{
    let right = a.times(Grid::identity(a.cols()));
    assert forall|c: int, r: int| a.has(c, r) implies right.at(c, r) == a.at(c, r) by {
        lemma_dot_identity_right(a, a.cols(), c, r, a.cols());
        lemma_wrap_congruent(a.at(c, r) as int);
    }
    right.lemma_same_is_equal(a);
    let left = Grid::identity(a.rows).times(a);
    assert forall|c: int, r: int| a.has(c, r) implies left.at(c, r) == a.at(c, r) by {
        lemma_dot_identity_left(a, a.rows, c, r, a.rows);
        lemma_wrap_congruent(a.at(c, r) as int);
    }
    left.lemma_same_is_equal(a);
}

/// The sum over `i < ki` of the products of three elements
/// `a.at(j, row) * b.at(i, j) * c.at(col, i)`, each summed over `j < kj`
/// first.
pub open spec fn triple_sum(a: Grid<i32>, b: Grid<i32>, c: Grid<i32>, col: int, row: int, ki: nat, kj: nat) -> int
    decreases ki,
{
    if ki == 0 {
        0
    } else {
        triple_sum(a, b, c, col, row, (ki - 1) as nat, kj) + a.dot(b, ki - 1, row, kj) * c.at(col, ki - 1)
    }
}

/// The same sum of products of three elements, summed over `i < ki` first
/// and over `j < kj` last.
pub open spec fn triple_sum_swapped(
    a: Grid<i32>,
    b: Grid<i32>,
    c: Grid<i32>,
    col: int,
    row: int,
    ki: nat,
    kj: nat,
) -> int
    decreases kj,
{
    if kj == 0 {
        0
    } else {
        triple_sum_swapped(a, b, c, col, row, ki, (kj - 1) as nat) + a.at(kj - 1, row) * b.dot(c, col, kj - 1, ki)
    }
}

/// One more index `i` adds to the swapped sum what it adds to the sum.
proof fn lemma_triple_sum_swapped_step(
    a: Grid<i32>,
    b: Grid<i32>,
    c: Grid<i32>,
    col: int,
    row: int,
    ki: nat,
    kj: nat,
)
    requires
        ki > 0,
    ensures
        triple_sum_swapped(a, b, c, col, row, ki, kj) == triple_sum_swapped(a, b, c, col, row, (ki - 1) as nat, kj)
            + a.dot(b, ki - 1, row, kj) * c.at(col, ki - 1),
    decreases kj,
{
    if kj > 0 {
        lemma_triple_sum_swapped_step(a, b, c, col, row, ki, (kj - 1) as nat);
        let x = a.at(kj - 1, row) as int;
        let y = b.at(ki - 1, kj - 1) as int;
        let z = c.at(col, ki - 1) as int;
        let d = b.dot(c, col, kj - 1, (ki - 1) as nat);
        let e = a.dot(b, ki - 1, row, (kj - 1) as nat);
        assert(b.dot(c, col, kj - 1, ki) == d + y * z);
        assert(a.dot(b, ki - 1, row, kj) == e + x * y);
        assert(x * (d + y * z) == x * d + (x * y) * z) by (nonlinear_arith);
        assert((e + x * y) * z == e * z + (x * y) * z) by (nonlinear_arith);
    }
}

/// The order of summation does not matter.
proof fn lemma_triple_sum_swap(a: Grid<i32>, b: Grid<i32>, c: Grid<i32>, col: int, row: int, ki: nat, kj: nat)
    ensures
        triple_sum(a, b, c, col, row, ki, kj) == triple_sum_swapped(a, b, c, col, row, ki, kj),
    decreases ki,
{
    if ki > 0 {
        lemma_triple_sum_swap(a, b, c, col, row, (ki - 1) as nat, kj);
        lemma_triple_sum_swapped_step(a, b, c, col, row, ki, kj);
    } else {
        lemma_triple_sum_swapped_zero(a, b, c, col, row, kj);
    }
}

/// Without an index `i` the swapped sum is zero.
proof fn lemma_triple_sum_swapped_zero(a: Grid<i32>, b: Grid<i32>, c: Grid<i32>, col: int, row: int, kj: nat)
    ensures
        triple_sum_swapped(a, b, c, col, row, 0, kj) == 0,
    decreases kj,
{
    if kj > 0 {
        lemma_triple_sum_swapped_zero(a, b, c, col, row, (kj - 1) as nat);
        assert(b.dot(c, col, kj - 1, 0) == 0);
        assert(a.at(kj - 1, row) * 0 == 0);
    }
}

/// A sum of products along a row of the product of `a` and `b` is
/// congruent to the sum of the products of three elements.
proof fn lemma_left_product(a: Grid<i32>, b: Grid<i32>, c: Grid<i32>, col: int, row: int, k: nat)
    requires
        0 <= row < a.rows,
        k <= b.cols(),
    ensures
        congruent(a.times(b).dot(c, col, row, k), triple_sum(a, b, c, col, row, k, a.cols())),
    decreases k,
{
    if k > 0 {
        lemma_left_product(a, b, c, col, row, (k - 1) as nat);
        let d = a.dot(b, k - 1, row, a.cols());
        assert(a.times(b).at(k - 1, row) == wrap(d));
        lemma_wrap_congruent(d);
        lemma_congruent_mul(wrap(d) as int, d, c.at(col, k - 1) as int, c.at(col, k - 1) as int);
        lemma_congruent_add(
            a.times(b).dot(c, col, row, (k - 1) as nat),
            triple_sum(a, b, c, col, row, (k - 1) as nat, a.cols()),
            wrap(d) * c.at(col, k - 1),
            d * c.at(col, k - 1),
        );
    }
}

/// A sum of products along a column of the product of `b` and `c` is
/// congruent to the swapped sum of the products of three elements.
proof fn lemma_right_product(a: Grid<i32>, b: Grid<i32>, c: Grid<i32>, col: int, row: int, k: nat)
    requires
        0 <= col < c.cols(),
        k <= b.rows,
    ensures
        congruent(a.dot(b.times(c), col, row, k), triple_sum_swapped(a, b, c, col, row, b.cols(), k)),
    decreases k,
{
    if k > 0 {
        lemma_right_product(a, b, c, col, row, (k - 1) as nat);
        let d = b.dot(c, col, k - 1, b.cols());
        assert(b.times(c).at(col, k - 1) == wrap(d));
        lemma_wrap_congruent(d);
        lemma_congruent_mul(a.at(k - 1, row) as int, a.at(k - 1, row) as int, wrap(d) as int, d);
        lemma_congruent_add(
            a.dot(b.times(c), col, row, (k - 1) as nat),
            triple_sum_swapped(a, b, c, col, row, b.cols(), (k - 1) as nat),
            a.at(k - 1, row) * wrap(d),
            a.at(k - 1, row) * d,
        );
    }
}

/// Multiplication is associative: for three matrices that fit one after
/// the other, and so for three squares of one size, the product of the
/// first two times the third is the first times the product of the last
/// two, element by element.
pub proof fn lemma_times_is_associative(a: Grid<i32>, b: Grid<i32>, c: Grid<i32>)
    requires
        a.wf() && b.wf() && c.wf(),
        a.cols() == b.rows,
        b.cols() == c.rows,
    ensures
        a.times(b).times(c) == a.times(b.times(c)),
{
    let left = a.times(b).times(c);
    let right = a.times(b.times(c));
    assert forall|col: int, row: int| left.has(col, row) implies left.at(col, row) == right.at(col, row) by {
        let l = a.times(b).dot(c, col, row, b.cols());
        let r = a.dot(b.times(c), col, row, a.cols());
        assert(left.at(col, row) == wrap(l));
        assert(right.at(col, row) == wrap(r));
        lemma_left_product(a, b, c, col, row, b.cols());
        lemma_right_product(a, b, c, col, row, a.cols());
        lemma_triple_sum_swap(a, b, c, col, row, b.cols(), a.cols());
        let t = triple_sum(a, b, c, col, row, b.cols(), a.cols());
        lemma_wrap_congruent(l);
        lemma_congruent_trans(wrap(l) as int, l, t);
        lemma_wrap_congruent(r);
        lemma_congruent_sym(r, t);
        lemma_congruent_sym(wrap(r) as int, r);
        lemma_congruent_trans(t, r, wrap(r) as int);
        lemma_congruent_trans(wrap(l) as int, t, wrap(r) as int);
        lemma_congruent_elements(wrap(l), wrap(r));
    }
    left.lemma_same_is_equal(right);
}

} // verus!
