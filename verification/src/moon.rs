//! The moon's precomputed speckle texture.
//!
//! Generated once at startup and immutable thereafter: every integer
//! offset pair within the moon's radius of its center yields one spot,
//! whose opacity comes from a raw noise magnitude sampled at that absolute
//! position, scaled by 0.75, thresholded at 0.2 and remapped onto
//! [0, 0.85], all in fixed point. The result is a pure function of the
//! configuration and the raw samples, so regenerating it from the same
//! inputs reproduces it exactly.

use vstd::prelude::*;
use vstd::arithmetic::div_mod::lemma_div_is_ordered;
use crate::fixed::{abs_capped, spec_abs_capped, spec_clamp};

verus! {

/// The moon's fixed placement: center in pixels times SCALE, radius in
/// whole pixels.
#[derive(Clone, Copy, PartialEq, Eq, Structural, Debug)]
pub struct MoonConfig {
    pub center_x: i64,
    pub center_y: i64,
    pub radius: i64,
}

impl MoonConfig {
    pub open spec fn wf(self) -> bool {
        &&& -1_000_000_000 <= self.center_x <= 1_000_000_000
        &&& -1_000_000_000 <= self.center_y <= 1_000_000_000
        &&& 1 <= self.radius <= 1000
    }
}

/// The default moon: centered at (112.5, 406.8) pixels with radius 21.
pub open spec fn spec_default_moon() -> MoonConfig {
    MoonConfig { center_x: 1125000, center_y: 4068000, radius: 21 }
}

pub fn default_moon() -> (c: MoonConfig)
    ensures
        c == spec_default_moon(),
        c.wf(),
{
    MoonConfig { center_x: 1125000, center_y: 4068000, radius: 21 }
}

/// One spot's opacity from one raw noise magnitude: 0.75 times the
/// magnitude, zero below 0.2, the rest remapped from [0.2, 1] onto
/// [0, 0.85] and clamped there, all in fixed point.
pub open spec fn spec_moon_alpha(raw: int) -> int {
    let m = spec_abs_capped(raw, 20000);
    let a = 3 * m / 4;
    if a < 2000 {
        0
    } else {
        spec_clamp((a - 2000) * 8500 / 8000, 0, 8500)
    }
}

/// Spot opacities always lie in [0, 0.85] in fixed point.
pub proof fn lemma_moon_alpha_range(raw: int)
    ensures
        0 <= spec_moon_alpha(raw) <= 8500,
{
}

/// The thresholded, remapped spot opacity.
pub fn moon_alpha(raw: i64) -> (r: u32)
    ensures
        r == spec_moon_alpha(raw as int),
        r <= 8500,
{
    let m = abs_capped(raw, 20000);
    let a = 3 * m / 4;
    proof {
        lemma_div_is_ordered(0, 3 * (m as int), 4);
    }
    if a < 2000 {
        0
    } else {
        let v = (a - 2000) * 8500 / 8000;
        proof {
            lemma_div_is_ordered(0, (a as int - 2000) * 8500, 8000);
        }
        if v > 8500 {
            8500
        } else {
            v as u32
        }
    }
}

/// One texture spot: an absolute position in pixels times SCALE and a
/// fixed-point opacity.
#[derive(Clone, Copy, PartialEq, Eq, Structural, Debug)]
pub struct MoonSpot {
    pub x: i64,
    pub y: i64,
    pub alpha: u32,
}

/// The spots produced by the first `n` offsets of the square enumeration:
/// offset pair k of the (2 radius)-sided square is (i, j) with
/// i = k / side - radius and j = k % side - radius; the pair contributes a
/// spot exactly when it lies strictly within the radius, at position
/// center - offset, with the opacity of the k-th raw sample.
pub open spec fn spec_moon_spots(c: MoonConfig, raws: Seq<i64>, n: nat) -> Seq<MoonSpot>
    decreases n,
{
    if n == 0 {
        Seq::empty()
    } else {
        let k = (n - 1) as int;
        let side = 2 * c.radius;
        let i = k / side - c.radius;
        let j = k % side - c.radius;
        let prev = spec_moon_spots(c, raws, (n - 1) as nat);
        if i * i + j * j < c.radius * c.radius {
            prev.push(
                MoonSpot {
                    x: (c.center_x - i * 10000) as i64,
                    y: (c.center_y - j * 10000) as i64,
                    alpha: spec_moon_alpha(raws[k] as int) as u32,
                },
            )
        } else {
            prev
        }
    }
}

/// The immutable speckle texture: one spot per in-disc offset.
pub struct MoonTexture {
    pub spots: Vec<MoonSpot>,
}

impl MoonTexture {
    /// Generate the texture from the raw noise magnitudes of the whole
    /// (2 radius)-sided square of offsets, in enumeration order. Runs
    /// once at startup; the result depends on nothing but its arguments.
    pub fn generate(c: MoonConfig, raws: &Vec<i64>) -> (t: MoonTexture)
        requires
            c.wf(),
            raws@.len() == 4 * c.radius * c.radius,
        ensures
            t.spots@ == spec_moon_spots(c, raws@, (4 * c.radius * c.radius) as nat),
    {
        let side: i64 = 2 * c.radius;
        proof {
            assert(4 * c.radius * c.radius == (2 * c.radius) * (2 * c.radius))
                by (nonlinear_arith);
            assert((2 * c.radius) * (2 * c.radius) <= 4000000) by (nonlinear_arith)
                requires
                    1 <= c.radius <= 1000,
            ;
        }
        let total: i64 = side * side;
        let mut spots: Vec<MoonSpot> = Vec::new();
        let mut k: i64 = 0;
        while k < total
            invariant
                c.wf(),
                side == 2 * c.radius,
                total == side * side,
                total == 4 * c.radius * c.radius,
                total <= 4000000,
                raws@.len() == total,
                0 <= k <= total,
                spots@ == spec_moon_spots(c, raws@, k as nat),
            decreases total - k,
        {
            let i: i64 = k / side - c.radius;
            let j: i64 = k % side - c.radius;
            proof {
                lemma_div_is_ordered(0, k as int, side as int);
                lemma_div_is_ordered(k as int, side as int * side as int - 1, side as int);
                assert((side as int * side as int - 1) / (side as int) < side as int)
                    by (nonlinear_arith)
                    requires
                        2 <= side as int <= 2000,
                ;
                assert(-1000 <= i <= 1000);
                assert(i * i <= 1000000 && i * i >= 0) by (nonlinear_arith)
                    requires
                        -1000 <= i <= 1000,
                ;
                assert(j * j <= 1000000 && j * j >= 0) by (nonlinear_arith)
                    requires
                        -1000 <= j <= 1000,
                ;
                assert(c.radius * c.radius <= 1000000 && c.radius * c.radius >= 1)
                    by (nonlinear_arith)
                    requires
                        1 <= c.radius <= 1000,
                ;
            }
            if i * i + j * j < c.radius * c.radius {
                let alpha = moon_alpha(raws[k as usize]);
                let spot = MoonSpot {
                    x: c.center_x - i * 10000,
                    y: c.center_y - j * 10000,
                    alpha,
                };
                spots.push(spot);
            }
            proof {
                assert(spots@ == spec_moon_spots(c, raws@, (k + 1) as nat));
            }
            k = k + 1;
        }
        MoonTexture { spots }
    }
}

/// Texture generation is deterministic: two textures generated from the
/// same configuration and the same raw samples are identical, spot for
/// spot.
pub proof fn lemma_moon_texture_deterministic(
    t1: MoonTexture,
    t2: MoonTexture,
    c: MoonConfig,
    raws: Seq<i64>,
)
    requires
        t1.spots@ == spec_moon_spots(c, raws, (4 * c.radius * c.radius) as nat),
        t2.spots@ == spec_moon_spots(c, raws, (4 * c.radius * c.radius) as nat),
    ensures
        t1.spots@ == t2.spots@,
{
}

} // verus!
