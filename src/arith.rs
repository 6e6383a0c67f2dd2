//! Floor division and floor modulo on machine integers.
//!
//! Rust's `/` and `%` truncate toward zero, which sends negative
//! coordinates to the wrong cell. The helpers here compute the Euclidean
//! quotient and remainder (for a positive divisor), which is what `/` and
//! `%` mean on `int` in specifications.
use vstd::prelude::*;
use vstd::arithmetic::div_mod::{
    lemma_fundamental_div_mod,
    lemma_fundamental_div_mod_converse,
    lemma_div_is_ordered,
    lemma_div_multiples_vanish,
};

verus! {

/// Quotient of `a` by a positive `b`, rounded toward negative infinity.
pub fn floor_div(a: i128, b: i128) -> (r: i128)
    requires
        b > 0,
    ensures
        r == a / b,
{
    if a >= 0 {
        a / b
    } else {
        let n: i128 = -(a + 1);
        let q: i128 = n / b;
        proof {
            lemma_fundamental_div_mod(n as int, b as int);
            let rem = n % b;
            assert(0 <= rem < b);
            assert(a == (-q - 1) * b + (b - rem - 1)) by (nonlinear_arith)
                requires
                    n == b * q + rem,
                    a == -(n + 1),
            ;
            lemma_fundamental_div_mod_converse(a as int, b as int, -q - 1, b - rem - 1);
        }
        -q - 1
    }
}

/// Remainder of `a` by a positive `b`, always in `[0, b)`.
pub fn floor_mod(a: i128, b: i128) -> (r: i128)
    requires
        b > 0,
    ensures
        r == a % b,
        0 <= r < b,
{
    if a >= 0 {
        a % b
    } else {
        let n: i128 = -(a + 1);
        let rem: i128 = n % b;
        proof {
            lemma_fundamental_div_mod(n as int, b as int);
            let q = n / b;
            assert(a == (-q - 1) * b + (b - rem - 1)) by (nonlinear_arith)
                requires
                    n == b * q + rem,
                    a == -(n + 1),
            ;
            lemma_fundamental_div_mod_converse(a as int, b as int, -q - 1, b - rem - 1);
        }
        b - 1 - rem
    }
}

/// A quotient of a value between `c * lo` and `c * hi` by a positive `c`
/// lies between `lo` and `hi`.
pub proof fn lemma_div_between(s: int, c: int, lo: int, hi: int)
    requires
        c > 0,
        c * lo <= s <= c * hi,
    ensures
        lo <= s / c <= hi,
{
    lemma_div_is_ordered(c * lo, s, c);
    lemma_div_is_ordered(s, c * hi, c);
    lemma_div_multiples_vanish(lo, c);
    lemma_div_multiples_vanish(hi, c);
}

} // verus!
