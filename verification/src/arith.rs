//! Small arithmetic helpers shared by the filter modules: products of
//! bounded factors, and division of a signed value by a positive divisor
//! rounding toward zero, as the sample and coefficient scaling needs it.
use vstd::prelude::*;

verus! {

use vstd::arithmetic::div_mod::{
    lemma_div_basics,
    lemma_div_is_ordered,
    lemma_div_is_ordered_by_denominator,
    lemma_div_multiples_vanish,
    lemma_div_pos_is_pos,
};

/// Quotient of `n` by the positive divisor `d`, rounded toward zero.
pub open spec fn div_mag(n: int, d: int) -> int {
    if n >= 0 {
        n / d
    } else {
        -((-n) / d)
    }
}

/// `|a * b| <= ca * cb` when `|a| <= ca` and `|b| <= cb`.
pub proof fn lemma_mul_bound(a: int, b: int, ca: int, cb: int)
    requires
        -ca <= a <= ca,
        -cb <= b <= cb,
        0 <= ca,
        0 <= cb,
    ensures
        -(ca * cb) <= a * b <= ca * cb,
{
    assert(-(ca * cb) <= a * b <= ca * cb) by (nonlinear_arith)
        requires
            -ca <= a <= ca,
            -cb <= b <= cb,
            0 <= ca,
            0 <= cb,
    ;
}

/// A non-negative value divided by a positive divisor is at most `m`
/// whenever the value is at most `m * d`.
pub proof fn lemma_div_le(n: int, d: int, m: int)
    requires
        0 <= n,
        0 < d,
        0 <= m,
        n <= m * d,
    ensures
        0 <= n / d <= m,
{
    lemma_div_pos_is_pos(n, d);
    lemma_div_is_ordered(n, m * d, d);
    lemma_div_multiples_vanish(m, d);
    assert(m * d == d * m) by (nonlinear_arith);
}

/// Round-toward-zero division keeps the bound `m` whenever the numerator
/// is bounded by `m * d`.
pub proof fn lemma_div_mag_bound(n: int, d: int, m: int)
    requires
        0 < d,
        0 <= m,
        -(m * d) <= n <= m * d,
    ensures
        -m <= div_mag(n, d) <= m,
{
    if n >= 0 {
        lemma_div_le(n, d, m);
    } else {
        lemma_div_le(-n, d, m);
    }
}

/// Dividing a non-negative value by a divisor of at least one can only
/// shrink it.
pub proof fn lemma_div_shrinks(n: int, d: int)
    requires
        0 <= n,
        1 <= d,
    ensures
        0 <= n / d <= n,
{
    lemma_div_pos_is_pos(n, d);
    lemma_div_is_ordered_by_denominator(n, 1, d);
    lemma_div_basics(1);
}

/// Divides `n` by the positive divisor `d`, rounding toward zero.
pub fn div_toward_zero(n: i64, d: i64) -> (q: i64)
    requires
        0 < d,
        i64::MIN < n,
    ensures
        q == div_mag(n as int, d as int),
{
    if n >= 0 {
        proof {
            lemma_div_shrinks(n as int, d as int);
        }
        n / d
    } else {
        let neg = -n;
        proof {
            lemma_div_shrinks(neg as int, d as int);
        }
        -(neg / d)
    }
}

} // verus!
