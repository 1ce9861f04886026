//! Colors and the three-stop day/sunset/night sky gradient.
//!
//! A color is an RGB triple plus alpha, each channel in [0, 255]. The
//! gradient is sampled at 101 discrete steps; between stops the channels
//! are interpolated in a linear-light domain (channel values squared)
//! and taken back by an integer square root, so the two endpoints and the
//! middle stop are reproduced exactly.

use vstd::prelude::*;
use vstd::arithmetic::div_mod::{lemma_div_is_ordered, lemma_div_multiples_vanish};
use vstd::arithmetic::mul::lemma_mul_inequality;

verus! {

#[derive(Clone, Copy, PartialEq, Eq, Structural, Debug)]
pub struct Color {
    pub red: u8,
    pub green: u8,
    pub blue: u8,
    pub alpha: u8,
}

/// The day-blue gradient endpoint (light sky blue).
pub open spec fn spec_day_blue() -> Color {
    Color { red: 135, green: 206, blue: 250, alpha: 255 }
}

/// The sunset-orange middle stop.
pub open spec fn spec_sunset_orange() -> Color {
    Color { red: 254, green: 172, blue: 39, alpha: 255 }
}

/// The night-dark gradient endpoint, also the fixed night sky color.
pub open spec fn spec_night_dark() -> Color {
    Color { red: 20, green: 30, blue: 37, alpha: 255 }
}

pub fn day_blue() -> (c: Color)
    ensures
        c == spec_day_blue(),
{
    Color { red: 135, green: 206, blue: 250, alpha: 255 }
}

pub fn sunset_orange() -> (c: Color)
    ensures
        c == spec_sunset_orange(),
{
    Color { red: 254, green: 172, blue: 39, alpha: 255 }
}

pub fn night_dark() -> (c: Color)
    ensures
        c == spec_night_dark(),
{
    Color { red: 20, green: 30, blue: 37, alpha: 255 }
}

/// A channel scaled by a fixed-point factor in [0, SCALE].
pub open spec fn spec_channel_scale(u: int, f: int) -> int {
    u * f / 10000
}

fn channel_scale(u: u8, f: i64) -> (r: u8)
    requires
        0 <= f <= 10000,
    ensures
        r == spec_channel_scale(u as int, f as int),
        r <= u,
{
    proof {
        assert(0 <= (u as int) * f <= 2550000) by (nonlinear_arith)
            requires
                0 <= u <= 255,
                0 <= f <= 10000,
        ;
    }
    let p: i64 = (u as i64) * f;
    proof {
        lemma_mul_inequality(f as int, 10000, u as int);
        lemma_div_is_ordered(u as int * f, u as int * 10000, 10000);
        lemma_div_multiples_vanish(u as int, 10000);
    }
    (p / 10000) as u8
}

/// Every channel multiplied by `1 - factor`; alpha is kept.
pub open spec fn spec_darken_by(c: Color, factor: int) -> Color {
    Color {
        red: spec_channel_scale(c.red as int, 10000 - factor) as u8,
        green: spec_channel_scale(c.green as int, 10000 - factor) as u8,
        blue: spec_channel_scale(c.blue as int, 10000 - factor) as u8,
        alpha: c.alpha,
    }
}

/// Darken a color by a fixed-point factor in [0, SCALE]. A zero factor
/// returns the color unchanged.
pub fn darken_by(c: Color, factor: i64) -> (r: Color)
    requires
        0 <= factor <= 10000,
    ensures
        r == spec_darken_by(c, factor as int),
        factor == 0 ==> r == c,
{
    let keep: i64 = 10000 - factor;
    let r = Color {
        red: channel_scale(c.red, keep),
        green: channel_scale(c.green, keep),
        blue: channel_scale(c.blue, keep),
        alpha: c.alpha,
    };
    proof {
        if factor == 0 {
            lemma_div_multiples_vanish(c.red as int, 10000);
            lemma_div_multiples_vanish(c.green as int, 10000);
            lemma_div_multiples_vanish(c.blue as int, 10000);
        }
    }
    r
}

/// The color with its alpha replaced by a fixed-point opacity in [0, SCALE],
/// mapped onto the 0..=255 channel range.
pub open spec fn spec_with_alpha(c: Color, alpha: int) -> Color {
    Color { red: c.red, green: c.green, blue: c.blue, alpha: (alpha * 255 / 10000) as u8 }
}

pub fn with_alpha(c: Color, alpha: i64) -> (r: Color)
    requires
        0 <= alpha <= 10000,
    ensures
        r == spec_with_alpha(c, alpha as int),
{
    let a: i64 = alpha * 255 / 10000;
    proof {
        lemma_mul_inequality(alpha as int, 10000, 255);
        lemma_div_is_ordered(alpha as int * 255, 2550000int, 10000);
        lemma_div_multiples_vanish(255, 10000);
    }
    Color { red: c.red, green: c.green, blue: c.blue, alpha: a as u8 }
}

pub fn white_with_alpha(alpha: i64) -> (r: Color)
    requires
        0 <= alpha <= 10000,
    ensures
        r == spec_with_alpha(Color { red: 255, green: 255, blue: 255, alpha: 255 }, alpha as int),
{
    with_alpha(Color { red: 255, green: 255, blue: 255, alpha: 255 }, alpha)
}

/// `r` is the integer square root of `v`.
pub open spec fn spec_is_isqrt(r: int, v: int) -> bool {
    0 <= r && r * r <= v && v < (r + 1) * (r + 1)
}

/// The integer square root, as a recursive spec value.
pub open spec fn spec_isqrt(v: nat) -> nat
    decreases v,
{
    if v == 0 {
        0
    } else {
        let p = spec_isqrt((v - 1) as nat);
        if (p + 1) * (p + 1) <= v {
            p + 1
        } else {
            p
        }
    }
}

pub proof fn lemma_isqrt_correct(v: nat)
    ensures
        spec_is_isqrt(spec_isqrt(v) as int, v as int),
    decreases v,
{
    if v > 0 {
        lemma_isqrt_correct((v - 1) as nat);
        let p = spec_isqrt((v - 1) as nat) as int;
        assert((p + 1) * (p + 1) < (p + 2) * (p + 2)) by (nonlinear_arith)
            requires
                p >= 0,
        ;
    }
}

pub proof fn lemma_isqrt_unique(r1: int, r2: int, v: int)
    requires
        spec_is_isqrt(r1, v),
        spec_is_isqrt(r2, v),
    ensures
        r1 == r2,
{
    if r1 < r2 {
        lemma_mul_inequality(r1 + 1, r2, r2);
        lemma_mul_inequality(r1 + 1, r2, r1 + 1);
    }
    if r2 < r1 {
        lemma_mul_inequality(r2 + 1, r1, r1);
        lemma_mul_inequality(r2 + 1, r1, r2 + 1);
    }
}

/// The integer square root is monotone.
pub proof fn lemma_isqrt_mono(v1: nat, v2: nat)
    requires
        v1 <= v2,
    ensures
        spec_isqrt(v1) <= spec_isqrt(v2),
{
    lemma_isqrt_correct(v1);
    lemma_isqrt_correct(v2);
    let r1 = spec_isqrt(v1) as int;
    let r2 = spec_isqrt(v2) as int;
    if r2 < r1 {
        lemma_mul_inequality(r2 + 1, r1, r1);
        lemma_mul_inequality(r2 + 1, r1, r2 + 1);
    }
}

fn isqrt_fp(v: u32) -> (r: u32)
    requires
        v <= 65025,
    ensures
        r as nat == spec_isqrt(v as nat),
        r <= 255,
{
    let mut r: u32 = 0;
    let mut sq: u32 = 1;
    while r < 255 && sq <= v
        invariant
            r <= 255,
            r * r <= v,
            v <= 65025,
            sq == (r + 1) * (r + 1),
            sq <= 65536,
        decreases 255 - r,
    {
        proof {
            assert((r + 2) * (r + 2) == (r + 1) * (r + 1) + 2 * (r as int) + 3)
                by (nonlinear_arith);
            assert((r + 2) * (r + 2) <= 65536) by (nonlinear_arith)
                requires
                    r + 2 <= 256,
            ;
        }
        r = r + 1;
        sq = sq + 2 * r + 1;
    }
    proof {
        if r == 255 {
            assert((r + 1) * (r + 1) == 65536) by (nonlinear_arith)
                requires
                    r == 255int,
            ;
        }
        assert(v < (r + 1) * (r + 1));
        assert(spec_is_isqrt(r as int, v as int));
        lemma_isqrt_correct(v as nat);
        lemma_isqrt_unique(r as int, spec_isqrt(v as nat) as int, v as int);
    }
    r
}

/// Linear-light interpolation of one channel: square the endpoints,
/// interpolate the squares at `t` out of `tmax`, keep within range.
pub open spec fn spec_lin_mix(a: int, b: int, t: int, tmax: int) -> int {
    if b >= a {
        a * a + (b * b - a * a) * t / tmax
    } else {
        a * a - (a * a - b * b) * t / tmax
    }
}

/// One interpolated channel: the integer square root of the linear-light
/// interpolation.
pub open spec fn spec_channel_mix(a: int, b: int, t: int, tmax: int) -> int {
    spec_isqrt(spec_lin_mix(a, b, t, tmax) as nat) as int
}

proof fn lemma_lin_mix_bounds(a: int, b: int, t: int, tmax: int)
    requires
        0 <= a <= 255,
        0 <= b <= 255,
        0 <= t <= tmax,
        0 < tmax,
    ensures
        0 <= spec_lin_mix(a, b, t, tmax) <= 65025,
        a <= b ==> a * a <= spec_lin_mix(a, b, t, tmax) <= b * b,
        b <= a ==> b * b <= spec_lin_mix(a, b, t, tmax) <= a * a,
{
    lemma_mul_inequality(a, 255, a);
    lemma_mul_inequality(b, 255, b);
    assert(a * 255 <= 255 * 255) by (nonlinear_arith)
        requires
            a <= 255,
    ;
    assert(b * 255 <= 255 * 255) by (nonlinear_arith)
        requires
            b <= 255,
    ;
    if b >= a {
        assert(a * a <= b * b) by (nonlinear_arith)
            requires
                0 <= a <= b,
        ;
        let d = b * b - a * a;
        lemma_mul_inequality(t, tmax, d);
        assert((b * b - a * a) * t >= 0) by (nonlinear_arith)
            requires
                a * a <= b * b,
                t >= 0,
        ;
        lemma_div_is_ordered(0, d * t, tmax);
        lemma_div_is_ordered(d * t, d * tmax, tmax);
        lemma_div_multiples_vanish(d, tmax);
        assert(d * tmax == tmax * d) by (nonlinear_arith);
        assert(t * d == d * t) by (nonlinear_arith);
    } else {
        assert(b * b <= a * a) by (nonlinear_arith)
            requires
                0 <= b <= a,
        ;
        let d = a * a - b * b;
        lemma_mul_inequality(t, tmax, d);
        assert((a * a - b * b) * t >= 0) by (nonlinear_arith)
            requires
                b * b <= a * a,
                t >= 0,
        ;
        lemma_div_is_ordered(0, d * t, tmax);
        lemma_div_is_ordered(d * t, d * tmax, tmax);
        lemma_div_multiples_vanish(d, tmax);
        assert(d * tmax == tmax * d) by (nonlinear_arith);
        assert(t * d == d * t) by (nonlinear_arith);
    }
}

fn channel_mix(a: u8, b: u8, t: i64, tmax: i64) -> (r: u8)
    requires
        0 <= t <= tmax,
        0 < tmax <= 50,
    ensures
        r == spec_channel_mix(a as int, b as int, t as int, tmax as int),
        r <= 255,
{
    proof {
        lemma_lin_mix_bounds(a as int, b as int, t as int, tmax as int);
        assert((a as int) * (a as int) <= 65025) by (nonlinear_arith)
            requires
                a <= 255,
        ;
        assert((b as int) * (b as int) <= 65025) by (nonlinear_arith)
            requires
                b <= 255,
        ;
    }
    let la: i64 = (a as i64) * (a as i64);
    let lb: i64 = (b as i64) * (b as i64);
    let d: i64 = if b >= a {
        lb - la
    } else {
        la - lb
    };
    proof {
        assert(d * t <= 65025 * 50) by (nonlinear_arith)
            requires
                0 <= d <= 65025,
                0 <= t <= 50,
        ;
        assert(d * t >= 0) by (nonlinear_arith)
            requires
                0 <= d,
                0 <= t,
        ;
    }
    let lv: i64 = if b >= a {
        la + d * t / tmax
    } else {
        la - d * t / tmax
    };
    let r = isqrt_fp(lv as u32);
    proof {
        lemma_isqrt_correct(lv as nat);
        assert(spec_isqrt(lv as nat) * spec_isqrt(lv as nat) <= 65025);
        let q = spec_isqrt(lv as nat) as int;
        if q > 255 {
            lemma_mul_inequality(256, q, q);
            lemma_mul_inequality(256, q, 256);
        }
    }
    r as u8
}

/// Interpolation endpoints are exact: at `t == 0` the channel is `a`, at
/// `t == tmax` it is `b`.
pub proof fn lemma_channel_mix_ends(a: int, b: int, tmax: int)
    requires
        0 <= a <= 255,
        0 <= b <= 255,
        0 < tmax,
    ensures
        spec_channel_mix(a, b, 0, tmax) == a,
        spec_channel_mix(a, b, tmax, tmax) == b,
{
    lemma_div_multiples_vanish(0, tmax);
    if b >= a {
        let d = b * b - a * a;
        assert(d * 0 == 0) by (nonlinear_arith);
        assert(d * tmax / tmax == d) by {
            lemma_div_multiples_vanish(d, tmax);
            assert(d * tmax == tmax * d) by (nonlinear_arith);
        };
    } else {
        let d = a * a - b * b;
        assert(d * 0 == 0) by (nonlinear_arith);
        assert(d * tmax / tmax == d) by {
            lemma_div_multiples_vanish(d, tmax);
            assert(d * tmax == tmax * d) by (nonlinear_arith);
        };
    }
    assert(spec_lin_mix(a, b, 0, tmax) == a * a);
    assert(spec_lin_mix(a, b, tmax, tmax) == b * b);
    assert(spec_is_isqrt(a, a * a)) by (nonlinear_arith)
        requires
            0 <= a,
    ;
    assert(spec_is_isqrt(b, b * b)) by (nonlinear_arith)
        requires
            0 <= b,
    ;
    lemma_isqrt_correct((a * a) as nat);
    lemma_isqrt_unique(a, spec_isqrt((a * a) as nat) as int, a * a);
    lemma_isqrt_correct((b * b) as nat);
    lemma_isqrt_unique(b, spec_isqrt((b * b) as nat) as int, b * b);
}

/// Between two stops the interpolated channel moves monotonically from
/// `a` toward `b` as `t` grows.
pub proof fn lemma_channel_mix_mono(a: int, b: int, t1: int, t2: int, tmax: int)
    requires
        0 <= a <= 255,
        0 <= b <= 255,
        0 <= t1 <= t2 <= tmax,
        0 < tmax,
    ensures
        a <= b ==> spec_channel_mix(a, b, t1, tmax) <= spec_channel_mix(a, b, t2, tmax),
        b <= a ==> spec_channel_mix(a, b, t2, tmax) <= spec_channel_mix(a, b, t1, tmax),
{
    lemma_lin_mix_bounds(a, b, t1, tmax);
    lemma_lin_mix_bounds(a, b, t2, tmax);
    if b >= a {
        assert(a * a <= b * b) by (nonlinear_arith)
            requires
                0 <= a <= b,
        ;
        let d = b * b - a * a;
        lemma_mul_inequality(t1, t2, d);
        assert(t1 * d == d * t1) by (nonlinear_arith);
        assert(t2 * d == d * t2) by (nonlinear_arith);
        lemma_div_is_ordered(d * t1, d * t2, tmax);
        lemma_isqrt_mono(
            spec_lin_mix(a, b, t1, tmax) as nat,
            spec_lin_mix(a, b, t2, tmax) as nat,
        );
    } else {
        assert(b * b <= a * a) by (nonlinear_arith)
            requires
                0 <= b <= a,
        ;
        let d = a * a - b * b;
        lemma_mul_inequality(t1, t2, d);
        assert(t1 * d == d * t1) by (nonlinear_arith);
        assert(t2 * d == d * t2) by (nonlinear_arith);
        lemma_div_is_ordered(d * t1, d * t2, tmax);
        lemma_isqrt_mono(
            spec_lin_mix(a, b, t2, tmax) as nat,
            spec_lin_mix(a, b, t1, tmax) as nat,
        );
    }
}

/// Every interpolated channel lies in [0, 255].
pub proof fn lemma_channel_mix_range(a: int, b: int, t: int, tmax: int)
    requires
        0 <= a <= 255,
        0 <= b <= 255,
        0 <= t <= tmax,
        0 < tmax,
    ensures
        0 <= spec_channel_mix(a, b, t, tmax) <= 255,
{
    lemma_lin_mix_bounds(a, b, t, tmax);
    let lv = spec_lin_mix(a, b, t, tmax);
    lemma_isqrt_correct(lv as nat);
    let q = spec_isqrt(lv as nat) as int;
    if q > 255 {
        lemma_mul_inequality(256, q, q);
        lemma_mul_inequality(256, q, 256);
        assert(false);
    }
}

/// One of the 101 gradient steps: the first fifty go from day-blue to
/// sunset-orange, the rest from sunset-orange to night-dark.
pub open spec fn spec_gradient_sample(step: int) -> Color {
    if step <= 50 {
        Color {
            red: spec_channel_mix(135, 254, step, 50) as u8,
            green: spec_channel_mix(206, 172, step, 50) as u8,
            blue: spec_channel_mix(250, 39, step, 50) as u8,
            alpha: 255,
        }
    } else {
        Color {
            red: spec_channel_mix(254, 20, step - 50, 50) as u8,
            green: spec_channel_mix(172, 30, step - 50, 50) as u8,
            blue: spec_channel_mix(39, 37, step - 50, 50) as u8,
            alpha: 255,
        }
    }
}

fn gradient_sample(step: i64) -> (c: Color)
    requires
        0 <= step <= 100,
    ensures
        c == spec_gradient_sample(step as int),
{
    if step <= 50 {
        Color {
            red: channel_mix(135, 254, step, 50),
            green: channel_mix(206, 172, step, 50),
            blue: channel_mix(250, 39, step, 50),
            alpha: 255,
        }
    } else {
        Color {
            red: channel_mix(254, 20, step - 50, 50),
            green: channel_mix(172, 30, step - 50, 50),
            blue: channel_mix(39, 37, step - 50, 50),
            alpha: 255,
        }
    }
}

/// The sky color for a day-cycle amount in [0, SCALE]: the amount is
/// quantized onto the gradient's 101 steps and the gradient sampled there.
pub open spec fn spec_transition_sky_color(amount: int) -> Color {
    spec_gradient_sample(amount * 100 / 10000)
}

/// Pure day-cycle to color mapping: 0 is full day, SCALE is full night.
pub fn transition_sky_color(amount: i64) -> (c: Color)
    requires
        0 <= amount <= 10000,
    ensures
        c == spec_transition_sky_color(amount as int),
{
    let step: i64 = amount * 100 / 10000;
    proof {
        lemma_mul_inequality(amount as int, 10000, 100);
        lemma_div_is_ordered(0, amount as int * 100, 10000);
        lemma_div_is_ordered(amount as int * 100, 1000000int, 10000);
        lemma_div_multiples_vanish(100, 10000);
    }
    gradient_sample(step)
}

/// The gradient's endpoints are the configured day and night colors, and
/// its middle step is the sunset stop exactly.
pub proof fn lemma_transition_endpoints()
    ensures
        spec_transition_sky_color(0) == spec_day_blue(),
        spec_transition_sky_color(10000) == spec_night_dark(),
        spec_transition_sky_color(5000) == spec_sunset_orange(),
{
    lemma_channel_mix_ends(135, 254, 50);
    lemma_channel_mix_ends(206, 172, 50);
    lemma_channel_mix_ends(250, 39, 50);
    lemma_channel_mix_ends(254, 20, 50);
    lemma_channel_mix_ends(172, 30, 50);
    lemma_channel_mix_ends(39, 37, 50);
    assert(0 * 100 / 10000 == 0);
    assert(10000 * 100 / 10000 == 100);
    assert(5000 * 100 / 10000 == 50);
}

/// Between consecutive stops every channel moves monotonically toward the
/// next stop: red rises then falls across the day half, and every channel
/// falls across the night half.
pub proof fn lemma_gradient_monotone(s1: int, s2: int)
    requires
        0 <= s1 <= s2 <= 100,
    ensures
        s2 <= 50 ==> spec_gradient_sample(s1).red <= spec_gradient_sample(s2).red
            && spec_gradient_sample(s1).green >= spec_gradient_sample(s2).green
            && spec_gradient_sample(s1).blue >= spec_gradient_sample(s2).blue,
        s1 >= 50 ==> spec_gradient_sample(s1).red >= spec_gradient_sample(s2).red
            && spec_gradient_sample(s1).green >= spec_gradient_sample(s2).green
            && spec_gradient_sample(s1).blue >= spec_gradient_sample(s2).blue,
{
    if s2 <= 50 {
        lemma_channel_mix_mono(135, 254, s1, s2, 50);
        lemma_channel_mix_mono(206, 172, s1, s2, 50);
        lemma_channel_mix_mono(250, 39, s1, s2, 50);
        lemma_channel_mix_range(135, 254, s1, 50);
        lemma_channel_mix_range(206, 172, s1, 50);
        lemma_channel_mix_range(250, 39, s1, 50);
        lemma_channel_mix_range(135, 254, s2, 50);
        lemma_channel_mix_range(206, 172, s2, 50);
        lemma_channel_mix_range(250, 39, s2, 50);
    } else if s1 >= 50 {
        lemma_channel_mix_range(254, 20, s2 - 50, 50);
        lemma_channel_mix_range(172, 30, s2 - 50, 50);
        lemma_channel_mix_range(39, 37, s2 - 50, 50);
        if s1 == 50 {
            lemma_channel_mix_ends(254, 20, 50);
            lemma_channel_mix_ends(172, 30, 50);
            lemma_channel_mix_ends(39, 37, 50);
            lemma_channel_mix_ends(135, 254, 50);
            lemma_channel_mix_ends(206, 172, 50);
            lemma_channel_mix_ends(250, 39, 50);
            lemma_channel_mix_mono(254, 20, 0, s2 - 50, 50);
            lemma_channel_mix_mono(172, 30, 0, s2 - 50, 50);
            lemma_channel_mix_mono(39, 37, 0, s2 - 50, 50);
        } else {
            lemma_channel_mix_mono(254, 20, s1 - 50, s2 - 50, 50);
            lemma_channel_mix_mono(172, 30, s1 - 50, s2 - 50, 50);
            lemma_channel_mix_mono(39, 37, s1 - 50, s2 - 50, 50);
            lemma_channel_mix_range(254, 20, s1 - 50, 50);
            lemma_channel_mix_range(172, 30, s1 - 50, 50);
            lemma_channel_mix_range(39, 37, s1 - 50, 50);
        }
    }
}

} // verus!
