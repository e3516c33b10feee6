//! Fixed-point arithmetic: the numeric ground of the pipeline.
//!
//! A quantity is carried as an `i64` holding `value * FX_ONE`, so one unit of
//! world space, one pixel, and the texture coordinate 1.0 are all `FX_ONE` raw
//! steps. Rounding is always toward negative infinity, which is what the
//! mathematical `/` of the contracts means on a positive divisor. Intermediate
//! products are taken in `i128`; the bounds required of the operands keep every
//! step in range.

use vstd::arithmetic::div_mod::{lemma_fundamental_div_mod, lemma_fundamental_div_mod_converse};
use vstd::prelude::*;

verus! {

/// Raw steps per unit: the fixed-point scale.
pub const FX_ONE: i64 = 65536;

/// Safe magnitude for operands of the widened helpers below: far under
/// `i128::MAX`, far over any product two `i64` values can form.
pub const WIDE_LIMIT: i128 = 0x4000_0000_0000_0000_0000_0000_0000_0000i128;

/// |a * b| <= bound_a * bound_b whenever |a| <= bound_a and |b| <= bound_b.
pub proof fn lemma_mul_abs_bound(a: int, b: int, bound_a: int, bound_b: int)
    by (nonlinear_arith)
    requires
        -bound_a <= a <= bound_a,
        -bound_b <= b <= bound_b,
    ensures
        -(bound_a * bound_b) <= a * b <= bound_a * bound_b,
{
}

/// Floor division of a widened value by a positive divisor; `/` of the
/// contracts (Euclidean division) agrees with flooring because `d > 0`.
pub fn div_floor_wide(a: i128, d: i128) -> (r: i128)
    requires
        0 < d < WIDE_LIMIT,
        -WIDE_LIMIT < a < WIDE_LIMIT,
    ensures
        r == a as int / d as int,
{
    if a >= 0 {
        let q = a / d;
        proof {
            lemma_fundamental_div_mod(a as int, d as int);
        }
        q
    } else {
        let m = -a;
        let q = (m + d - 1) / d;
        proof {
            lemma_fundamental_div_mod(a as int, d as int);
            let qq = a as int / d as int;
            let rr = a as int % d as int;
            assert(m + d - 1 == (-qq) * (d as int) + (d - 1 - rr)) by {
                assert(a == (d as int) * qq + rr);
                assert((-qq) * (d as int) == -((d as int) * qq)) by (nonlinear_arith);
            }
            lemma_fundamental_div_mod_converse(m + d - 1, d as int, -qq, d - 1 - rr);
        }
        -q
    }
}

/// The fixed-point product `(a * b) / FX_ONE`, floored.
pub fn fx_mul(a: i64, b: i64) -> (r: i64)
    requires
        i64::MIN <= a as int * b as int / FX_ONE as int <= i64::MAX,
    ensures
        r == a as int * b as int / FX_ONE as int,
{
    proof {
        lemma_mul_abs_bound(a as int, b as int, 0x8000_0000_0000_0000, 0x8000_0000_0000_0000);
    }
    let p: i128 = (a as i128) * (b as i128);
    let q = div_floor_wide(p, FX_ONE as i128);
    q as i64
}

/// The fixed-point quotient `(a * FX_ONE) / b`, floored; `b` must be positive.
pub fn fx_div(a: i64, b: i64) -> (r: i64)
    requires
        b > 0,
        i64::MIN <= a as int * FX_ONE as int / b as int <= i64::MAX,
    ensures
        r == a as int * FX_ONE as int / b as int,
{
    proof {
        lemma_mul_abs_bound(a as int, FX_ONE as int, 0x8000_0000_0000_0000, 0x1_0000);
    }
    let p: i128 = (a as i128) * (FX_ONE as i128);
    let q = div_floor_wide(p, b as i128);
    q as i64
}

} // verus!
