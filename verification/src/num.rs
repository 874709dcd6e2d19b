//! Integer helpers for the fixed-point geometry: floor division on signed
//! machine integers, matching the mathematical (Euclidean) division that the
//! specifications use for positive divisors.

use vstd::prelude::*;
use vstd::arithmetic::div_mod::{lemma_fundamental_div_mod, lemma_fundamental_div_mod_converse,
    lemma_mod_pos_bound};

verus! {

/// Floor division of `a` by a positive divisor `b`: agrees with `int`
/// division, and never grows in magnitude.
pub fn floor_div_i128(a: i128, b: i128) -> (r: i128)
    requires
        b > 0,
        a > i128::MIN,
    ensures
        r == a as int / b as int,
        a >= 0 ==> 0 <= r <= a,
        a < 0 ==> a <= r <= 0,
{
    if a >= 0 {
        let au = a as u128;
        let bu = b as u128;
        let q = au / bu;
        proof {
            lemma_fundamental_div_mod(au as int, bu as int);
            lemma_mod_pos_bound(au as int, bu as int);
            assert(q as int <= q as int * bu as int) by (nonlinear_arith)
                requires
                    q as int >= 0,
                    bu as int >= 1,
            ;
        }
        q as i128
    } else {
        let m = (-a) as u128;
        let bu = b as u128;
        let q0 = m / bu;
        let r0 = m % bu;
        proof {
            lemma_fundamental_div_mod(m as int, bu as int);
            lemma_mod_pos_bound(m as int, bu as int);
            assert(q0 as int <= (b as int) * (q0 as int)) by (nonlinear_arith)
                requires
                    q0 as int >= 0,
                    b as int >= 1,
            ;
        }
        if r0 == 0 {
            proof {
                assert(a as int == (-(q0 as int)) * (b as int) + 0) by (nonlinear_arith)
                    requires
                        a as int == -(m as int),
                        m as int == (b as int) * (q0 as int),
                ;
                lemma_fundamental_div_mod_converse(a as int, b as int, -(q0 as int), 0);
                assert(q0 as int <= m as int);
                assert(-(q0 as int) >= a as int);
            }
            -(q0 as i128)
        } else {
            proof {
                assert(a as int == (-(q0 as int) - 1) * (b as int) + ((b as int) - (
                r0 as int))) by (nonlinear_arith)
                    requires
                        a as int == -(m as int),
                        m as int == (b as int) * (q0 as int) + (r0 as int),
                ;
                lemma_fundamental_div_mod_converse(
                    a as int,
                    b as int,
                    -(q0 as int) - 1,
                    (b as int) - (r0 as int),
                );
                assert((b as int) * (q0 as int) == m as int - r0 as int);
                assert(q0 as int <= m as int - 1);
                assert(-(q0 as int) - 1 >= a as int);
            }
            -(q0 as i128) - 1
        }
    }
}

/// Floor division on `i64`, through the wide helper.
pub fn floor_div_i64(a: i64, b: i64) -> (r: i64)
    requires
        b > 0,
    ensures
        r == a as int / b as int,
        a >= 0 ==> 0 <= r <= a,
        a < 0 ==> a <= r <= 0,
{
    let q = floor_div_i128(a as i128, b as i128);
    q as i64
}

/// Division by a positive divisor never grows in magnitude.
pub proof fn lemma_div_shrinks(a: int, b: int)
    requires
        b >= 1,
    ensures
        a >= 0 ==> 0 <= a / b <= a,
        a < 0 ==> a <= a / b <= 0,
{
    lemma_fundamental_div_mod(a, b);
    vstd::arithmetic::div_mod::lemma_mod_bound(a, b);
    let q = a / b;
    let r = a % b;
    if a >= 0 {
        assert(q >= 0) by (nonlinear_arith)
            requires
                a == b * q + r,
                0 <= r < b,
                b >= 1,
                a >= 0,
        ;
        assert(q <= b * q) by (nonlinear_arith)
            requires
                q >= 0,
                b >= 1,
        ;
    } else {
        assert(q < 0) by (nonlinear_arith)
            requires
                a == b * q + r,
                0 <= r < b,
                b >= 1,
                a < 0,
        ;
        assert((b - 1) * (q + 1) <= 0) by (nonlinear_arith)
            requires
                q <= -1,
                b >= 1,
        ;
        assert(a <= q) by (nonlinear_arith)
            requires
                a == b * q + r,
                r <= b - 1,
                (b - 1) * (q + 1) <= 0,
        ;
    }
}

} // verus!
