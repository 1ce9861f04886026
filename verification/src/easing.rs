//! The logarithmic easing applied to the sun's rise and set fractions.
//!
//! The design takes a linear edge fraction `frac` in [0, SCALE], clamps
//! it, maps it through `1 - |log10(frac)|` and clamps again. Since
//! `1 - |log10(f)| == log10(10 f)` for `f` in (0, 1], the whole clamped
//! pipeline is: 0 at or below one tenth, 1 at one, and the base-10
//! logarithm of `10 * frac` in between. The logarithm is computed to
//! fourteen binary digits by repeated squaring.

use vstd::prelude::*;
use vstd::arithmetic::div_mod::lemma_div_is_ordered;

verus! {

/// Binary digit extraction for the base-10 logarithm. `w` is a fixed-point
/// value standing for a real in [1, 10); `acc` accumulates the digits of
/// log10(w / SCALE), most significant first; `k` digits remain.
pub open spec fn spec_ease_loop(w: int, acc: int, k: nat) -> int
    decreases k,
{
    if k == 0 {
        acc
    } else {
        let w2 = (w * w) / 10000;
        if w2 >= 100000 {
            spec_ease_loop(w2 / 10, 2 * acc + 1, (k - 1) as nat)
        } else {
            spec_ease_loop(w2, 2 * acc, (k - 1) as nat)
        }
    }
}

/// Powers of two, used to bound the digit accumulator.
pub open spec fn two_pow(k: nat) -> int
    decreases k,
{
    if k == 0 {
        1
    } else {
        2 * two_pow((k - 1) as nat)
    }
}

/// The eased amount for a linear fraction in [0, SCALE]: zero at or below
/// one tenth, one at one, and log10(10 * frac / SCALE) in between.
pub open spec fn spec_ease(frac: int) -> int {
    if frac >= 10000 {
        10000
    } else if frac <= 1000 {
        0
    } else {
        spec_ease_loop(10 * frac, 0, 14) * 10000 / 16384
    }
}

proof fn lemma_two_pow_pos(k: nat)
    ensures
        two_pow(k) >= 1,
    decreases k,
{
    if k > 0 {
        lemma_two_pow_pos((k - 1) as nat);
    }
}

proof fn lemma_ease_loop_range(w: int, acc: int, k: nat)
    requires
        0 <= acc,
    ensures
        acc * two_pow(k) <= spec_ease_loop(w, acc, k) < (acc + 1) * two_pow(k),
    decreases k,
{
    lemma_two_pow_pos(k);
    if k > 0 {
        let kp = (k - 1) as nat;
        lemma_two_pow_pos(kp);
        let w2 = (w * w) / 10000;
        if w2 >= 100000 {
            lemma_ease_loop_range(w2 / 10, 2 * acc + 1, kp);
            assert((2 * acc + 1) * two_pow(kp) == acc * two_pow(k) + two_pow(kp))
                by (nonlinear_arith)
                requires
                    two_pow(k) == 2 * two_pow(kp),
            ;
            assert((2 * acc + 2) * two_pow(kp) == (acc + 1) * two_pow(k)) by (nonlinear_arith)
                requires
                    two_pow(k) == 2 * two_pow(kp),
            ;
        } else {
            lemma_ease_loop_range(w2, 2 * acc, kp);
            assert(2 * acc * two_pow(kp) == acc * two_pow(k)) by (nonlinear_arith)
                requires
                    two_pow(k) == 2 * two_pow(kp),
            ;
            assert((2 * acc + 1) * two_pow(kp) <= (acc + 1) * two_pow(k)) by (nonlinear_arith)
                requires
                    two_pow(k) == 2 * two_pow(kp),
                    two_pow(kp) >= 1,
            ;
        }
    }
}

/// The eased amount always lies in [0, SCALE].
pub proof fn lemma_ease_range(frac: int)
    ensures
        0 <= spec_ease(frac) <= 10000,
{
    if frac < 10000 && frac > 1000 {
        lemma_ease_loop_range(10 * frac, 0, 14);
        reveal_with_fuel(two_pow, 15);
        assert(two_pow(14) == 16384);
        let acc = spec_ease_loop(10 * frac, 0, 14);
        assert(0 <= acc < 16384);
        lemma_div_is_ordered(0, acc * 10000, 16384);
        lemma_div_is_ordered(acc * 10000, 163830000int, 16384);
        assert(16383 * 10000 / 16384 == 9999);
    }
}

/// Fixed-point `1 - |log10(frac)|`, clamped to [0, SCALE] on both sides of
/// the logarithm, exactly as the design's easing pipeline orders it.
pub fn ease_fp(frac: i64) -> (r: i64)
    requires
        0 <= frac <= 10000,
    ensures
        r == spec_ease(frac as int),
        0 <= r <= 10000,
{
    proof {
        lemma_ease_range(frac as int);
    }
    if frac >= 10000 {
        return 10000;
    }
    if frac <= 1000 {
        return 0;
    }
    let ghost w0: int = 10 * frac;
    let mut w: i64 = 10 * frac;
    let mut acc: i64 = 0;
    let mut i: u64 = 0;
    while i < 14
        invariant
            0 <= i <= 14,
            10000 <= w < 100000,
            0 <= acc,
            acc < two_pow(i as nat),
            two_pow(i as nat) <= 16384,
            spec_ease_loop(w0, 0, 14) == spec_ease_loop(w as int, acc as int, (14 - i) as nat),
        decreases 14 - i,
    {
        proof {
            assert(w * w <= 9999800001) by (nonlinear_arith)
                requires
                    0 <= w <= 99999,
            ;
            assert(w * w >= 10000 * 10000) by (nonlinear_arith)
                requires
                    w >= 10000,
            ;
        }
        let w2: i64 = (w * w) / 10000;
        proof {
            lemma_div_is_ordered(100000000, w as int * w as int, 10000);
            lemma_div_is_ordered(w as int * w as int, 9999800001, 10000);
            assert(100000000int / 10000 == 10000);
            assert(9999800001int / 10000 == 999980);
            assert(spec_ease_loop(w as int, acc as int, (14 - i) as nat) == if w2 as int
                >= 100000 {
                spec_ease_loop(w2 as int / 10, 2 * acc as int + 1, (13 - i) as nat)
            } else {
                spec_ease_loop(w2 as int, 2 * acc as int, (13 - i) as nat)
            });
            assert(two_pow((i + 1) as nat) == 2 * two_pow(i as nat));
            lemma_two_pow_le((i + 1) as nat, 14);
            reveal_with_fuel(two_pow, 15);
            assert(two_pow(14) == 16384);
        }
        if w2 >= 100000 {
            let wn = w2 / 10;
            proof {
                lemma_div_is_ordered(100000, w2 as int, 10);
                lemma_div_is_ordered(w2 as int, 999980, 10);
            }
            w = wn;
            acc = 2 * acc + 1;
        } else {
            w = w2;
            acc = 2 * acc;
        }
        i = i + 1;
    }
    let r = acc * 10000 / 16384;
    proof {
        reveal_with_fuel(two_pow, 15);
        assert(acc < 16384);
        lemma_div_is_ordered(0, acc as int * 10000, 16384);
        lemma_div_is_ordered(acc as int * 10000, 163830000int, 16384);
        assert(16383 * 10000 / 16384 == 9999);
    }
    r
}

proof fn lemma_two_pow_le(a: nat, b: nat)
    requires
        a <= b,
    ensures
        two_pow(a) <= two_pow(b),
    decreases b,
{
    lemma_two_pow_pos(a);
    if a < b {
        lemma_two_pow_le(a, (b - 1) as nat);
        lemma_two_pow_pos((b - 1) as nat);
    }
}

} // verus!
