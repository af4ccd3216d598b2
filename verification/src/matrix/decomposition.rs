//! Why a product may be computed quadrant by quadrant from seven products of
//! half the size, and why a border of zeros does not change a product.
use vstd::prelude::*;
use crate::matrix::grid::Grid;
use crate::matrix::ring::{
    congruent, wrap, lemma_congruent_mul, lemma_wrap_congruent, lemma_wrap_add, lemma_congruent_elements_wrap,
};

verus! {

/// The sum of the `k` products `a.at(a_col0 + i, a_row) * b.at(b_col, b_row0 + i)`
/// for `i` from zero: a sum of products along a row of `a` and a column of
/// `b` that begins anywhere.
pub open spec fn shifted_dot(
    a: Grid<i32>,
    b: Grid<i32>,
    a_col0: int,
    a_row: int,
    b_col: int,
    b_row0: int,
    k: nat,
) -> int
    decreases k,
{
    if k == 0 {
        0
    } else {
        shifted_dot(a, b, a_col0, a_row, b_col, b_row0, (k - 1) as nat) + a.at(a_col0 + k - 1, a_row) * b.at(
            b_col,
            b_row0 + k - 1,
        )
    }
}

/// A sum of products from the first index is a shifted one that begins at
/// zero.
pub proof fn lemma_dot_is_shifted(a: Grid<i32>, b: Grid<i32>, col: int, row: int, k: nat)
    ensures
        a.dot(b, col, row, k) == shifted_dot(a, b, 0, row, col, 0, k),
    decreases k,
{
    if k > 0 {
        lemma_dot_is_shifted(a, b, col, row, (k - 1) as nat);
    }
}

/// A sum of products of two blocks is a shifted sum of products of the
/// grids that the blocks are cut from.
pub proof fn lemma_block_dot(
    a: Grid<i32>,
    a_col0: int,
    a_row0: int,
    b: Grid<i32>,
    b_col0: int,
    b_row0: int,
    h: nat,
    col: int,
    row: int,
    k: nat,
)
    requires
        0 <= col < h,
        0 <= row < h,
        k <= h,
    ensures
        a.block(a_col0, a_row0, h, h).dot(b.block(b_col0, b_row0, h, h), col, row, k) == shifted_dot(
            a,
            b,
            a_col0,
            a_row0 + row,
            b_col0 + col,
            b_row0,
            k,
        ),
    decreases k,
{
    if k > 0 {
        lemma_block_dot(a, a_col0, a_row0, b, b_col0, b_row0, h, col, row, (k - 1) as nat);
        Grid::lemma_build(h, h, |c: int, r: int| a.at(a_col0 + c, a_row0 + r));
        Grid::lemma_build(h, h, |c: int, r: int| b.at(b_col0 + c, b_row0 + r));
        assert(a.block(a_col0, a_row0, h, h).at(k - 1, row) == a.at(a_col0 + k - 1, a_row0 + row));
        assert(b.block(b_col0, b_row0, h, h).at(col, k - 1) == b.at(b_col0 + col, b_row0 + k - 1));
    }
}

/// A shifted sum of `k1 + k2` products is the sum of its first `k1` and its
/// last `k2` products.
pub proof fn lemma_shifted_dot_split(
    a: Grid<i32>,
    b: Grid<i32>,
    a_col0: int,
    a_row: int,
    b_col: int,
    b_row0: int,
    k1: nat,
    k2: nat,
)
    ensures
        shifted_dot(a, b, a_col0, a_row, b_col, b_row0, k1 + k2) == shifted_dot(
            a,
            b,
            a_col0,
            a_row,
            b_col,
            b_row0,
            k1,
        ) + shifted_dot(a, b, a_col0 + k1, a_row, b_col, b_row0 + k1, k2),
    decreases k2,
{
    if k2 > 0 {
        lemma_shifted_dot_split(a, b, a_col0, a_row, b_col, b_row0, k1, (k2 - 1) as nat);
        assert(k1 + k2 - 1 == (k1 + (k2 - 1) as nat) as int);
    }
}

/// Block multiplication: an element of a product of two square grids of
/// size `2 * h` is the sum of two elements of products of their quadrants.
/// `col0` and `row0`, each zero or `h`, tell the quadrant of the product.
pub proof fn lemma_dot_by_halves(a: Grid<i32>, b: Grid<i32>, h: nat, col0: int, row0: int, col: int, row: int)
    requires
        0 <= col < h,
        0 <= row < h,
    ensures
        a.dot(b, col0 + col, row0 + row, 2 * h) == a.block(0, row0, h, h).dot(b.block(col0, 0, h, h), col, row, h)
            + a.block(h as int, row0, h, h).dot(b.block(col0, h as int, h, h), col, row, h),
{
    lemma_dot_is_shifted(a, b, col0 + col, row0 + row, 2 * h);
    lemma_shifted_dot_split(a, b, 0, row0 + row, col0 + col, 0, h, h);
    lemma_block_dot(a, 0, row0, b, col0, 0, h, col, row, h);
    lemma_block_dot(a, h as int, row0, b, col0, h as int, h, col, row, h);
}

/// A sum of products of sums, up to multiples of 2^32. Where along row `row`
/// each element of `t` is congruent to `x + a2 * x2`, and along column `col`
/// each element of `u` is congruent to `y + b2 * y2`, the sum of the products
/// of `t` and `u` is congruent to the four sums of products of `x` or `x2`
/// and `y` or `y2`, each taken with the product of its two factors.
pub proof fn lemma_dot_of_sums(
    t: Grid<i32>,
    u: Grid<i32>,
    x: Grid<i32>,
    a2: int,
    x2: Grid<i32>,
    y: Grid<i32>,
    b2: int,
    y2: Grid<i32>,
    col: int,
    row: int,
    k: nat,
)
    requires
        forall|i: int| 0 <= i < k ==> congruent(#[trigger] t.at(i, row) as int, x.at(i, row) + a2 * x2.at(i, row)),
        forall|i: int| 0 <= i < k ==> congruent(#[trigger] u.at(col, i) as int, y.at(col, i) + b2 * y2.at(col, i)),
    ensures
        congruent(
            t.dot(u, col, row, k),
            x.dot(y, col, row, k) + b2 * x.dot(y2, col, row, k) + a2 * x2.dot(y, col, row, k) + a2 * b2 * x2.dot(
                y2,
                col,
                row,
                k,
            ),
        ),
    decreases k,
{
    if k > 0 {
        let j = (k - 1) as nat;
        lemma_dot_of_sums(t, u, x, a2, x2, y, b2, y2, col, row, j);
        let ti = t.at(k - 1, row) as int;
        let ui = u.at(col, k - 1) as int;
        let xi = x.at(k - 1, row) as int;
        let x2i = x2.at(k - 1, row) as int;
        let yi = y.at(col, k - 1) as int;
        let y2i = y2.at(col, k - 1) as int;
        let dxy = x.dot(y, col, row, j);
        let dxy2 = x.dot(y2, col, row, j);
        let dx2y = x2.dot(y, col, row, j);
        let dx2y2 = x2.dot(y2, col, row, j);
        lemma_congruent_mul(ti, xi + a2 * x2i, ui, yi + b2 * y2i);
        let q = a2 * x2i;
        let w = b2 * y2i;
        assert((xi + q) * (yi + w) == xi * yi + xi * w + q * yi + q * w) by (nonlinear_arith);
        assert(xi * w == b2 * (xi * y2i)) by (nonlinear_arith)
            requires
                w == b2 * y2i,
        ;
        assert(q * yi == a2 * (x2i * yi)) by (nonlinear_arith)
            requires
                q == a2 * x2i,
        ;
        assert(q * w == a2 * b2 * (x2i * y2i)) by (nonlinear_arith)
            requires
                q == a2 * x2i,
                w == b2 * y2i,
        ;
        assert(b2 * (dxy2 + xi * y2i) == b2 * dxy2 + b2 * (xi * y2i)) by (nonlinear_arith);
        assert(a2 * (dx2y + x2i * yi) == a2 * dx2y + a2 * (x2i * yi)) by (nonlinear_arith);
        assert(a2 * b2 * (dx2y2 + x2i * y2i) == a2 * b2 * dx2y2 + a2 * b2 * (x2i * y2i)) by (nonlinear_arith);
    }
}

/// The product of a sign and a number.
proof fn lemma_sign_times(sign: int, v: int)
    by (nonlinear_arith)
    requires
        -1 <= sign <= 1,
    ensures
        sign * v == (if sign == 0 {
            0
        } else if sign == 1 {
            v
        } else {
            -v
        }),
{
}

/// `x` where `sign` is zero, the sum of `x` and `x2` where it is one, and
/// their difference otherwise.
pub open spec fn signed_sum(x: Grid<i32>, sign: int, x2: Grid<i32>) -> Grid<i32> {
    if sign == 0 {
        x
    } else if sign == 1 {
        x.plus(x2)
    } else {
        x.minus(x2)
    }
}

/// An element of a product of two signed sums of square grids of size `h`,
/// up to a multiple of 2^32, in terms of the sums of products of the grids
/// themselves.
pub proof fn lemma_product_of_signed_sums(
    x: Grid<i32>,
    a2: int,
    x2: Grid<i32>,
    y: Grid<i32>,
    b2: int,
    y2: Grid<i32>,
    h: nat,
    col: int,
    row: int,
)
    requires
        x.wf() && x2.wf() && y.wf() && y2.wf(),
        x.cols() == h && x.rows == h && x2.cols() == h && x2.rows == h,
        y.cols() == h && y.rows == h && y2.cols() == h && y2.rows == h,
        -1 <= a2 <= 1,
        -1 <= b2 <= 1,
        0 <= col < h,
        0 <= row < h,
    ensures
        congruent(
            signed_sum(x, a2, x2).times(signed_sum(y, b2, y2)).at(col, row) as int,
            x.dot(y, col, row, h) + b2 * x.dot(y2, col, row, h) + a2 * x2.dot(y, col, row, h) + a2 * b2 * x2.dot(
                y2,
                col,
                row,
                h,
            ),
        ),
{
    let t = signed_sum(x, a2, x2);
    let u = signed_sum(y, b2, y2);
    assert(t.cols() == h && t.rows == h);
    assert(u.cols() == h && u.rows == h);
    assert forall|i: int| 0 <= i < h implies congruent(
        #[trigger] t.at(i, row) as int,
        x.at(i, row) + a2 * x2.at(i, row),
    ) by {
        lemma_wrap_congruent(x.at(i, row) + x2.at(i, row));
        lemma_wrap_congruent(x.at(i, row) - x2.at(i, row));
        lemma_sign_times(a2, x2.at(i, row) as int);
    }
    assert forall|i: int| 0 <= i < h implies congruent(
        #[trigger] u.at(col, i) as int,
        y.at(col, i) + b2 * y2.at(col, i),
    ) by {
        lemma_wrap_congruent(y.at(col, i) + y2.at(col, i));
        lemma_wrap_congruent(y.at(col, i) - y2.at(col, i));
        lemma_sign_times(b2, y2.at(col, i) as int);
    }
    lemma_dot_of_sums(t, u, x, a2, x2, y, b2, y2, col, row, h);
    lemma_wrap_congruent(t.dot(u, col, row, h));
    assert(t.times(u).at(col, row) == wrap(t.dot(u, col, row, h)));
}

impl Grid<i32> {
    /// The first of the seven products of half the size.
    pub open spec fn strassen_s1(self, other: Grid<i32>) -> Grid<i32> {
        self.q21().minus(self.q22()).times(other.q12().plus(other.q22()))
    }

    /// The second of the seven products.
    pub open spec fn strassen_s2(self, other: Grid<i32>) -> Grid<i32> {
        self.q11().plus(self.q22()).times(other.q11().plus(other.q22()))
    }

    /// The third of the seven products.
    pub open spec fn strassen_s3(self, other: Grid<i32>) -> Grid<i32> {
        self.q11().minus(self.q12()).times(other.q11().plus(other.q21()))
    }

    /// The fourth of the seven products.
    pub open spec fn strassen_s4(self, other: Grid<i32>) -> Grid<i32> {
        self.q11().plus(self.q21()).times(other.q22())
    }

    /// The fifth of the seven products.
    pub open spec fn strassen_s5(self, other: Grid<i32>) -> Grid<i32> {
        self.q11().times(other.q21().minus(other.q22()))
    }

    /// The sixth of the seven products.
    pub open spec fn strassen_s6(self, other: Grid<i32>) -> Grid<i32> {
        self.q22().times(other.q12().minus(other.q11()))
    }

    /// The seventh of the seven products.
    pub open spec fn strassen_s7(self, other: Grid<i32>) -> Grid<i32> {
        self.q12().plus(self.q22()).times(other.q11())
    }

    /// The quadrant `11` of the result, from the seven products.
    pub open spec fn strassen_c11(self, other: Grid<i32>) -> Grid<i32> {
        self.strassen_s1(other).plus(self.strassen_s2(other)).minus(self.strassen_s4(other)).plus(
            self.strassen_s6(other),
        )
    }

    /// The quadrant `12` of the result.
    pub open spec fn strassen_c12(self, other: Grid<i32>) -> Grid<i32> {
        self.strassen_s6(other).plus(self.strassen_s7(other))
    }

    /// The quadrant `21` of the result.
    pub open spec fn strassen_c21(self, other: Grid<i32>) -> Grid<i32> {
        self.strassen_s4(other).plus(self.strassen_s5(other))
    }

    /// The quadrant `22` of the result.
    pub open spec fn strassen_c22(self, other: Grid<i32>) -> Grid<i32> {
        self.strassen_s2(other).minus(self.strassen_s3(other)).plus(self.strassen_s5(other)).minus(
            self.strassen_s7(other),
        )
    }

    /// What one step of the decomposition yields for two square grids of one
    /// even size: the four quadrants, each from the seven products, put
    /// together.
    pub open spec fn strassen_step(self, other: Grid<i32>) -> Grid<i32> {
        Grid::join(
            self.strassen_c11(other),
            self.strassen_c12(other),
            self.strassen_c21(other),
            self.strassen_c22(other),
        )
    }

    /// Whether the two grids are square, of one size, and well-formed.
    pub open spec fn square_pair(self, other: Grid<i32>) -> bool {
        &&& self.wf() && other.wf()
        &&& self.is_square() && other.is_square()
        &&& self.cols() == other.cols()
    }
}

/// The quadrants of a square grid of size `2 * h` are well-formed squares of
/// size `h`.
proof fn lemma_quadrants(a: Grid<i32>, h: nat)
    requires
        a.wf(),
        a.is_square(),
        a.cols() == 2 * h,
    ensures
        a.half() == h,
        a.q11().wf() && a.q11().cols() == h && a.q11().rows == h,
        a.q12().wf() && a.q12().cols() == h && a.q12().rows == h,
        a.q21().wf() && a.q21().cols() == h && a.q21().rows == h,
        a.q22().wf() && a.q22().cols() == h && a.q22().rows == h,
{
}

/// The elements of the seven products, up to multiples of 2^32, in terms of
/// the sums of products of the quadrants.
proof fn lemma_seven_products(a: Grid<i32>, b: Grid<i32>, h: nat, col: int, row: int)
    requires
        a.square_pair(b),
        a.cols() == 2 * h,
        0 <= col < h,
        0 <= row < h,
    ensures
        congruent(
            a.strassen_s1(b).at(col, row) as int,
            a.q21().dot(b.q12(), col, row, h) + a.q21().dot(b.q22(), col, row, h) - a.q22().dot(b.q12(), col, row, h)
                - a.q22().dot(b.q22(), col, row, h),
        ),
        congruent(
            a.strassen_s2(b).at(col, row) as int,
            a.q11().dot(b.q11(), col, row, h) + a.q11().dot(b.q22(), col, row, h) + a.q22().dot(b.q11(), col, row, h)
                + a.q22().dot(b.q22(), col, row, h),
        ),
        congruent(
            a.strassen_s3(b).at(col, row) as int,
            a.q11().dot(b.q11(), col, row, h) + a.q11().dot(b.q21(), col, row, h) - a.q12().dot(b.q11(), col, row, h)
                - a.q12().dot(b.q21(), col, row, h),
        ),
        congruent(
            a.strassen_s4(b).at(col, row) as int,
            a.q11().dot(b.q22(), col, row, h) + a.q21().dot(b.q22(), col, row, h),
        ),
        congruent(
            a.strassen_s5(b).at(col, row) as int,
            a.q11().dot(b.q21(), col, row, h) - a.q11().dot(b.q22(), col, row, h),
        ),
        congruent(
            a.strassen_s6(b).at(col, row) as int,
            a.q22().dot(b.q12(), col, row, h) - a.q22().dot(b.q11(), col, row, h),
        ),
        congruent(
            a.strassen_s7(b).at(col, row) as int,
            a.q12().dot(b.q11(), col, row, h) + a.q22().dot(b.q11(), col, row, h),
        ),
{
    lemma_quadrants(a, h);
    lemma_quadrants(b, h);
    let (a11, a12, a21, a22) = (a.q11(), a.q12(), a.q21(), a.q22());
    let (b11, b12, b21, b22) = (b.q11(), b.q12(), b.q21(), b.q22());
    assert(a.strassen_s1(b) == signed_sum(a21, -1, a22).times(signed_sum(b12, 1, b22)));
    lemma_product_of_signed_sums(a21, -1, a22, b12, 1, b22, h, col, row);
    assert(a.strassen_s2(b) == signed_sum(a11, 1, a22).times(signed_sum(b11, 1, b22)));
    lemma_product_of_signed_sums(a11, 1, a22, b11, 1, b22, h, col, row);
    assert(a.strassen_s3(b) == signed_sum(a11, -1, a12).times(signed_sum(b11, 1, b21)));
    lemma_product_of_signed_sums(a11, -1, a12, b11, 1, b21, h, col, row);
    assert(a.strassen_s4(b) == signed_sum(a11, 1, a21).times(signed_sum(b22, 0, b22)));
    lemma_product_of_signed_sums(a11, 1, a21, b22, 0, b22, h, col, row);
    assert(a.strassen_s5(b) == signed_sum(a11, 0, a11).times(signed_sum(b21, -1, b22)));
    lemma_product_of_signed_sums(a11, 0, a11, b21, -1, b22, h, col, row);
    assert(a.strassen_s6(b) == signed_sum(a22, 0, a22).times(signed_sum(b12, -1, b11)));
    lemma_product_of_signed_sums(a22, 0, a22, b12, -1, b11, h, col, row);
    assert(a.strassen_s7(b) == signed_sum(a12, 1, a22).times(signed_sum(b11, 0, b11)));
    lemma_product_of_signed_sums(a12, 1, a22, b11, 0, b11, h, col, row);
}

/// The elements of the four quadrants of the result in terms of the
/// elements of the seven products.
proof fn lemma_combined_at(a: Grid<i32>, b: Grid<i32>, h: nat, col: int, row: int)
    requires
        a.square_pair(b),
        a.cols() == 2 * h,
        0 <= col < h,
        0 <= row < h,
    ensures
        a.strassen_c11(b).at(col, row) == wrap(
            wrap(wrap(a.strassen_s1(b).at(col, row) + a.strassen_s2(b).at(col, row)) - a.strassen_s4(b).at(col, row))
                + a.strassen_s6(b).at(col, row),
        ),
        a.strassen_c12(b).at(col, row) == wrap(a.strassen_s6(b).at(col, row) + a.strassen_s7(b).at(col, row)),
        a.strassen_c21(b).at(col, row) == wrap(a.strassen_s4(b).at(col, row) + a.strassen_s5(b).at(col, row)),
        a.strassen_c22(b).at(col, row) == wrap(
            wrap(wrap(a.strassen_s2(b).at(col, row) - a.strassen_s3(b).at(col, row)) + a.strassen_s5(b).at(col, row))
                - a.strassen_s7(b).at(col, row),
        ),
{
    lemma_quadrants(a, h);
    lemma_quadrants(b, h);
}

/// The four quadrants of the result are well-formed squares of half the
/// size.
proof fn lemma_combined_shape(a: Grid<i32>, b: Grid<i32>, h: nat)
    requires
        a.square_pair(b),
        a.cols() == 2 * h,
    ensures
        a.strassen_c11(b).wf() && a.strassen_c11(b).cols() == h && a.strassen_c11(b).rows == h,
        a.strassen_c12(b).wf() && a.strassen_c12(b).cols() == h && a.strassen_c12(b).rows == h,
        a.strassen_c21(b).wf() && a.strassen_c21(b).cols() == h && a.strassen_c21(b).rows == h,
        a.strassen_c22(b).wf() && a.strassen_c22(b).cols() == h && a.strassen_c22(b).rows == h,
{
    lemma_quadrants(a, h);
    lemma_quadrants(b, h);
}

/// A sum, a difference and a sum of elements, taken modulo 2^32 step by
/// step, give the element that the integers give.
proof fn lemma_chain_11(x1: i32, x2: i32, x3: i32, x4: i32, e1: int, e2: int, e3: int, e4: int)
    requires
        congruent(x1 as int, e1),
        congruent(x2 as int, e2),
        congruent(x3 as int, e3),
        congruent(x4 as int, e4),
    ensures
        wrap(wrap(wrap(x1 + x2) - x3) + x4) == wrap(e1 + e2 - e3 + e4),
{
    lemma_wrap_add(x1, x2, e1, e2);
    lemma_wrap_add(wrap(x1 + x2), x3, e1 + e2, e3);
    lemma_wrap_add(wrap(wrap(x1 + x2) - x3), x4, e1 + e2 - e3, e4);
    lemma_congruent_elements_wrap(wrap(wrap(wrap(x1 + x2) - x3) + x4), e1 + e2 - e3 + e4);
}

/// A difference, a sum and a difference of elements, taken modulo 2^32 step
/// by step, give the element that the integers give.
proof fn lemma_chain_22(x1: i32, x2: i32, x3: i32, x4: i32, e1: int, e2: int, e3: int, e4: int)
    requires
        congruent(x1 as int, e1),
        congruent(x2 as int, e2),
        congruent(x3 as int, e3),
        congruent(x4 as int, e4),
    ensures
        wrap(wrap(wrap(x1 - x2) + x3) - x4) == wrap(e1 - e2 + e3 - e4),
{
    lemma_wrap_add(x1, x2, e1, e2);
    lemma_wrap_add(wrap(x1 - x2), x3, e1 - e2, e3);
    lemma_wrap_add(wrap(wrap(x1 - x2) + x3), x4, e1 - e2 + e3, e4);
    lemma_congruent_elements_wrap(wrap(wrap(wrap(x1 - x2) + x3) - x4), e1 - e2 + e3 - e4);
}

/// A sum of two elements, taken modulo 2^32, gives the element that the
/// integers give.
proof fn lemma_chain_2(x1: i32, x2: i32, e1: int, e2: int)
    requires
        congruent(x1 as int, e1),
        congruent(x2 as int, e2),
    ensures
        wrap(x1 + x2) == wrap(e1 + e2),
{
    lemma_wrap_add(x1, x2, e1, e2);
    lemma_congruent_elements_wrap(wrap(x1 + x2), e1 + e2);
}

/// One step of the decomposition holds, at every place, the element of the
/// product.
proof fn lemma_strassen_step_at(a: Grid<i32>, b: Grid<i32>, h: nat, col: int, row: int)
    requires
        a.square_pair(b),
        a.cols() == 2 * h,
        0 <= col < h,
        0 <= row < h,
    ensures
        a.strassen_c11(b).at(col, row) == wrap(a.dot(b, col, row, 2 * h)),
        a.strassen_c12(b).at(col, row) == wrap(a.dot(b, col, h + row, 2 * h)),
        a.strassen_c21(b).at(col, row) == wrap(a.dot(b, h + col, row, 2 * h)),
        a.strassen_c22(b).at(col, row) == wrap(a.dot(b, h + col, h + row, 2 * h)),
{
    lemma_seven_products(a, b, h, col, row);
    lemma_combined_at(a, b, h, col, row);
    lemma_dot_by_halves(a, b, h, 0, 0, col, row);
    lemma_dot_by_halves(a, b, h, 0, h as int, col, row);
    lemma_dot_by_halves(a, b, h, h as int, 0, col, row);
    lemma_dot_by_halves(a, b, h, h as int, h as int, col, row);
    let s1 = a.strassen_s1(b).at(col, row);
    let s2 = a.strassen_s2(b).at(col, row);
    let s3 = a.strassen_s3(b).at(col, row);
    let s4 = a.strassen_s4(b).at(col, row);
    let s5 = a.strassen_s5(b).at(col, row);
    let s6 = a.strassen_s6(b).at(col, row);
    let s7 = a.strassen_s7(b).at(col, row);
    let (a11, a12, a21, a22) = (a.q11(), a.q12(), a.q21(), a.q22());
    let (b11, b12, b21, b22) = (b.q11(), b.q12(), b.q21(), b.q22());
    let e1 = a21.dot(b12, col, row, h) + a21.dot(b22, col, row, h) - a22.dot(b12, col, row, h) - a22.dot(
        b22,
        col,
        row,
        h,
    );
    let e2 = a11.dot(b11, col, row, h) + a11.dot(b22, col, row, h) + a22.dot(b11, col, row, h) + a22.dot(
        b22,
        col,
        row,
        h,
    );
    let e3 = a11.dot(b11, col, row, h) + a11.dot(b21, col, row, h) - a12.dot(b11, col, row, h) - a12.dot(
        b21,
        col,
        row,
        h,
    );
    let e4 = a11.dot(b22, col, row, h) + a21.dot(b22, col, row, h);
    let e5 = a11.dot(b21, col, row, h) - a11.dot(b22, col, row, h);
    let e6 = a22.dot(b12, col, row, h) - a22.dot(b11, col, row, h);
    let e7 = a12.dot(b11, col, row, h) + a22.dot(b11, col, row, h);
    lemma_chain_11(s1, s2, s4, s6, e1, e2, e4, e6);
    lemma_chain_2(s6, s7, e6, e7);
    lemma_chain_2(s4, s5, e4, e5);
    lemma_chain_22(s2, s3, s5, s7, e2, e3, e5, e7);
    assert(a.block(0, 0, h, h) == a11 && a.block(h as int, 0, h, h) == a21);
    assert(a.block(0, h as int, h, h) == a12 && a.block(h as int, h as int, h, h) == a22);
    assert(b.block(0, 0, h, h) == b11 && b.block(h as int, 0, h, h) == b21);
    assert(b.block(0, h as int, h, h) == b12 && b.block(h as int, h as int, h, h) == b22);
    assert(e1 + e2 - e4 + e6 == a.dot(b, col, row, 2 * h));
    assert(e6 + e7 == a.dot(b, col, h + row, 2 * h));
    assert(e4 + e5 == a.dot(b, h + col, row, 2 * h));
    assert(e2 - e3 + e5 - e7 == a.dot(b, h + col, h + row, 2 * h));
}

/// One step of the decomposition yields the product: the seven products of
/// half the size, combined and put together, are the product of the whole.
pub proof fn lemma_strassen_step(a: Grid<i32>, b: Grid<i32>)
    requires
        a.square_pair(b),
        a.cols() % 2 == 0,
    ensures
        a.strassen_step(b) == a.times(b),
{
    let h = a.half();
    let s = a.strassen_step(b);
    let p = a.times(b);
    lemma_combined_shape(a, b, h);
    let (c11, c12, c21, c22) = (a.strassen_c11(b), a.strassen_c12(b), a.strassen_c21(b), a.strassen_c22(b));
    assert(s == Grid::join(c11, c12, c21, c22));
    assert(s.wf() && s.cols() == 2 * h && s.rows == 2 * h);
    assert(p.wf() && p.cols() == 2 * h && p.rows == 2 * h);
    assert forall|c: int, r: int| 0 <= c < 2 * h && 0 <= r < 2 * h implies s.at(c, r) == p.at(c, r) by {
        let col = if c < h { c } else { c - h };
        let row = if r < h { r } else { r - h };
        lemma_strassen_step_at(a, b, h, col, row);
        assert(p.at(c, r) == wrap(a.dot(b, c, r, 2 * h)));
        if c < h {
            if r < h {
                assert(s.at(c, r) == c11.at(col, row));
            } else {
                assert(s.at(c, r) == c12.at(col, row));
            }
        } else {
            if r < h {
                assert(s.at(c, r) == c21.at(col, row));
            } else {
                assert(s.at(c, r) == c22.at(col, row));
            }
        }
    }
    s.lemma_same_is_equal(p);
}

/// A sum of products depends only on the row and the column that it runs
/// along.
pub proof fn lemma_dot_agrees(a: Grid<i32>, b: Grid<i32>, a2: Grid<i32>, b2: Grid<i32>, col: int, row: int, k: nat)
    requires
        forall|i: int| 0 <= i < k ==> #[trigger] a.at(i, row) == a2.at(i, row),
        forall|i: int| 0 <= i < k ==> #[trigger] b.at(col, i) == b2.at(col, i),
    ensures
        a.dot(b, col, row, k) == a2.dot(b2, col, row, k),
    decreases k,
{
    if k > 0 {
        lemma_dot_agrees(a, b, a2, b2, col, row, (k - 1) as nat);
    }
}

/// A border of zeros does not change a product: the product of two grids
/// with such a border, without the border, is the product of the two.
pub proof fn lemma_padded_product(a: Grid<i32>, b: Grid<i32>)
    requires
        a.wf(),
        b.wf(),
        a.cols() == b.rows,
    ensures
        a.padded().times(b.padded()).trimmed() == a.times(b),
{
    let n = a.cols();
    let ap = a.padded();
    let bp = b.padded();
    let t = ap.times(bp).trimmed();
    let p = a.times(b);
    assert(ap.times(bp).cols() == b.cols() + 1 && ap.times(bp).rows == a.rows + 1);
    assert forall|c: int, r: int| 0 <= c < b.cols() && 0 <= r < a.rows implies t.at(c, r) == p.at(c, r) by {
        assert(t.at(c, r) == ap.times(bp).at(c, r));
        assert(ap.times(bp).at(c, r) == wrap(ap.dot(bp, c, r, n + 1)));
        assert(ap.at(n as int, r) == 0);
        assert(ap.dot(bp, c, r, n + 1) == ap.dot(bp, c, r, n) + ap.at(n as int, r) * bp.at(c, n as int));
        lemma_dot_agrees(ap, bp, a, b, c, r, n);
    }
    t.lemma_same_is_equal(p);
}

} // verus!
