//! Division and remainder by a positive divisor, in the three forms the rest
//! of the library needs: splitting a number, joining a quotient with a
//! remainder, and bounding the quotient.

use vstd::arithmetic::div_mod::{
    lemma_fundamental_div_mod, lemma_fundamental_div_mod_converse, lemma_mod_bound,
};
use vstd::prelude::*;

verus! {

/// A number is its quotient times the divisor plus its remainder, and the
/// remainder is smaller than the divisor.
pub proof fn lemma_split(x: int, d: int)
    requires
        d > 0,
    ensures
        x == (x / d) * d + x % d,
        0 <= x % d < d,
{
    lemma_fundamental_div_mod(x, d);
    lemma_mod_bound(x, d);
    let q = x / d;
    assert(d * q == q * d) by (nonlinear_arith);
}

/// A quotient and a remainder smaller than the divisor are what division
/// gives back.
pub proof fn lemma_join(q: int, r: int, d: int)
    requires
        d > 0,
        0 <= r < d,
    ensures
        (q * d + r) / d == q,
        (q * d + r) % d == r,
{
    lemma_fundamental_div_mod_converse(q * d + r, d, q, r);
}

/// A product of a number below `n` with a positive `d`, plus less than `d`,
/// stays below `n * d`.
pub proof fn lemma_below(q: int, r: int, d: int, n: int)
    requires
        d > 0,
        0 <= q < n,
        0 <= r < d,
    ensures
        0 <= q * d,
        q * d + r < n * d,
        q * d + d <= n * d,
{
    assert(0 <= q * d && q * d + d <= n * d) by (nonlinear_arith)
        requires
            d > 0,
            0 <= q,
            q + 1 <= n,
    ;
}

/// The quotient of a number in `0 .. n * d` lies in `0 .. n`.
pub proof fn lemma_split_range(x: int, d: int, n: int)
    requires
        d > 0,
        0 <= x < n * d,
    ensures
        0 <= x / d < n,
        0 <= x % d < d,
        x == (x / d) * d + x % d,
{
    lemma_split(x, d);
    let q = x / d;
    let r = x % d;
    assert(0 <= q < n) by (nonlinear_arith)
        requires
            d > 0,
            x == q * d + r,
            0 <= r < d,
            0 <= x < n * d,
    ;
}

/// Division by a positive divisor keeps the order.
pub proof fn lemma_div_ordered(x: int, y: int, d: int)
    requires
        d > 0,
        x <= y,
    ensures
        x / d <= y / d,
{
    lemma_split(x, d);
    lemma_split(y, d);
    let qx = x / d;
    let rx = x % d;
    let qy = y / d;
    let ry = y % d;
    assert(qx <= qy) by (nonlinear_arith)
        requires
            d > 0,
            x == qx * d + rx,
            y == qy * d + ry,
            0 <= rx < d,
            0 <= ry < d,
            x <= y,
    ;
}

} // verus!
