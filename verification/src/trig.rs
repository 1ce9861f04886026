//! Fixed-point sine and cosine over centidegrees.
//!
//! Angles are integers in [0, 36000) (hundredths of a degree); results are
//! fixed-point values in [-SCALE, SCALE]. The half-turn sine is Bhaskara's
//! rational approximation, which is exact at 0, 9000 and 18000
//! centidegrees, so the trajectory built on it hits its configured start
//! point exactly at angle zero.

use vstd::prelude::*;
use vstd::arithmetic::div_mod::{lemma_div_is_ordered, lemma_div_multiples_vanish};

verus! {

/// Bhaskara's sine for `a` in [0, 18000] centidegrees, scaled by SCALE:
/// sin(a) ~ 4 a (18000 - a) / (405000000 - a (18000 - a)).
pub open spec fn spec_half_sin(a: int) -> int {
    (4 * a * (18000 - a) * 10000) / (405000000 - a * (18000 - a))
}

/// Sine over a full turn, by odd symmetry about the half turn.
pub open spec fn spec_sin(a: int) -> int {
    if a <= 18000 {
        spec_half_sin(a)
    } else {
        -spec_half_sin(a - 18000)
    }
}

/// Cosine as the sine shifted by a quarter turn.
pub open spec fn spec_cos(a: int) -> int {
    if a < 27000 {
        spec_sin(a + 9000)
    } else {
        spec_sin(a - 27000)
    }
}

fn half_sin_fp(a: i64) -> (r: i64)
    requires
        0 <= a <= 18000,
    ensures
        r == spec_half_sin(a as int),
        0 <= r <= 10000,
{
    proof {
        assert(0 <= a * (18000 - a) <= 81000000) by (nonlinear_arith)
            requires
                0 <= a <= 18000,
        ;
    }
    let p: i64 = a * (18000 - a);
    let num: i64 = 4 * p * 10000;
    let den: i64 = 405000000 - p;
    let r = num / den;
    proof {
        assert(num == 4 * (a as int) * (18000 - a as int) * 10000) by (nonlinear_arith)
            requires
                num == 4 * p * 10000,
                p == a * (18000 - (a as int)),
        ;
        assert(num <= 10000 * den);
        lemma_div_is_ordered(num as int, 10000 * den, den as int);
        lemma_div_multiples_vanish(10000, den as int);
    }
    r
}

/// Fixed-point sine of an angle in [0, 36000) centidegrees.
pub fn sin_fp(a: i64) -> (r: i64)
    requires
        0 <= a < 36000,
    ensures
        r == spec_sin(a as int),
        -10000 <= r <= 10000,
{
    if a <= 18000 {
        half_sin_fp(a)
    } else {
        let v = half_sin_fp(a - 18000);
        -v
    }
}

/// Fixed-point cosine of an angle in [0, 36000) centidegrees.
pub fn cos_fp(a: i64) -> (r: i64)
    requires
        0 <= a < 36000,
    ensures
        r == spec_cos(a as int),
        -10000 <= r <= 10000,
{
    if a < 27000 {
        sin_fp(a + 9000)
    } else {
        sin_fp(a - 27000)
    }
}

/// At angle zero the rotation is the identity: sine 0, cosine one.
pub proof fn lemma_trig_at_zero()
    ensures
        spec_sin(0) == 0,
        spec_cos(0) == 10000,
{
    assert(spec_half_sin(0) == 0);
    assert(spec_half_sin(9000) == 3240000000000int / 324000000int);
    assert(spec_half_sin(9000) == 10000);
}

} // verus!
