//! The arithmetic of matrix elements: 32-bit two's-complement integers, which
//! add, subtract and multiply as the integers do modulo 2^32.
use vstd::prelude::*;
use vstd::arithmetic::div_mod::lemma_mod_multiples_basic;

verus! {

/// Whether `x` and `y` differ by a multiple of 2^32.
pub open spec fn congruent(x: int, y: int) -> bool {
    (x - y) % 0x1_0000_0000 == 0
}

/// The one 32-bit signed integer that is congruent to `x`.
///
/// Where `x` itself fits in 32 bits, this is `x`.
pub open spec fn wrap(x: int) -> i32 {
    let m = x % 0x1_0000_0000;
    if m > i32::MAX {
        (m - 0x1_0000_0000) as i32
    } else {
        m as i32
    }
}

/// `wrap(x)` is congruent to `x`, and a value of 32 bits is left as it is.
pub proof fn lemma_wrap_congruent(x: int)
    ensures
        congruent(wrap(x) as int, x),
        i32::MIN <= x <= i32::MAX ==> wrap(x) == x,
{
}

/// Two elements that are congruent are equal.
pub proof fn lemma_congruent_elements(x: i32, y: i32)
    requires
        congruent(x as int, y as int),
    ensures
        x == y,
{
}

/// Sums and differences of congruent terms are congruent.
pub proof fn lemma_congruent_add(x: int, x2: int, y: int, y2: int)
    requires
        congruent(x, x2),
        congruent(y, y2),
    ensures
        congruent(x + y, x2 + y2),
        congruent(x - y, x2 - y2),
{
    let k = (x - x2) / 0x1_0000_0000;
    let l = (y - y2) / 0x1_0000_0000;
    assert((x + y) - (x2 + y2) == (k + l) * 0x1_0000_0000);
    assert((x - y) - (x2 - y2) == (k - l) * 0x1_0000_0000);
}

/// Congruence does not depend on the order of the two numbers.
pub proof fn lemma_congruent_sym(x: int, y: int)
    requires
        congruent(x, y),
    ensures
        congruent(y, x),
{
    let k = (x - y) / 0x1_0000_0000;
    assert(y - x == (-k) * 0x1_0000_0000);
}

/// What is congruent to a second number that is congruent to a third is
/// congruent to the third.
pub proof fn lemma_congruent_trans(x: int, y: int, z: int)
    requires
        congruent(x, y),
        congruent(y, z),
    ensures
        congruent(x, z),
{
    let k = (x - y) / 0x1_0000_0000;
    let l = (y - z) / 0x1_0000_0000;
    assert(x - z == (k + l) * 0x1_0000_0000);
}

/// The element of a sum or difference of two elements, from integers that
/// the two are congruent to.
pub proof fn lemma_wrap_add(x: i32, y: i32, ex: int, ey: int)
    requires
        congruent(x as int, ex),
        congruent(y as int, ey),
    ensures
        congruent(wrap(x + y) as int, ex + ey),
        congruent(wrap(x - y) as int, ex - ey),
{
    lemma_congruent_add(x as int, ex, y as int, ey);
    lemma_wrap_congruent(x + y);
    lemma_wrap_congruent(x - y);
    lemma_congruent_trans(wrap(x + y) as int, x + y, ex + ey);
    lemma_congruent_trans(wrap(x - y) as int, x - y, ex - ey);
}

/// An element that is congruent to an integer is what the integer wraps to.
pub proof fn lemma_congruent_elements_wrap(x: i32, e: int)
    requires
        congruent(x as int, e),
    ensures
        x == wrap(e),
{
}

/// Products of congruent factors are congruent.
pub proof fn lemma_congruent_mul(x: int, x2: int, y: int, y2: int)
    requires
        congruent(x, x2),
        congruent(y, y2),
    ensures
        congruent(x * y, x2 * y2),
{
    let k = (x - x2) / 0x1_0000_0000;
    let l = (y - y2) / 0x1_0000_0000;
    let t = k * y + x2 * l;
    assert(x * y - x2 * y2 == t * 0x1_0000_0000) by (nonlinear_arith)
        requires
            x - x2 == k * 0x1_0000_0000,
            y - y2 == l * 0x1_0000_0000,
            t == k * y + x2 * l,
    ;
    lemma_mod_multiples_basic(t, 0x1_0000_0000);
}

/// What the wrapping operations of `i32` compute, in terms of `wrap`.
pub proof fn lemma_wrapping_ops(x: i32, y: i32)
    ensures
        x.wrapping_add(y) == wrap(x + y),
        x.wrapping_sub(y) == wrap(x - y),
        x.wrapping_mul(y) == wrap(x * y),
{
}

} // verus!
