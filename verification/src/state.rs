//! The top-level simulation state and the per-frame update step.
//!
//! One owned state carries the sun, the cloud grid, the two sky colors,
//! the immutable star field and moon texture, and the speedup flag. Each
//! frame the step recomputes the sun position from the cumulative frame
//! count (scaled while speedup is held), rebuilds the grid from the raw
//! noise magnitudes, derives the base sky color from the trajectory
//! state, and darkens it by the cloud coverage over the sun's disc —
//! or bypasses the darkening for the fixed night color once the sun
//! has set.

use vstd::prelude::*;
use crate::clouds::{
    coverage_sum, darken_factor, spec_coverage, spec_darken_factor, DensityGrid,
};
use crate::color::{
    darken_by, day_blue, night_dark, spec_darken_by, spec_day_blue, spec_night_dark,
    spec_transition_sky_color, transition_sky_color, Color,
};
use crate::moon::{default_moon, spec_default_moon, spec_moon_spots, MoonTexture};
use crate::stars::StarField;
use crate::sun::{
    default_config, spec_default_config, spec_pos_x_at, spec_pos_y_at, Sun,
    lemma_position_periodic,
};

verus! {

/// The whole scene is 450 pixels square, rasterized for the cloud layer
/// at one cell per 3 pixels, giving a 150-sided density grid.
pub const SCREEN_SIZE: i64 = 450;

pub const CELL_PX: i64 = 3;

pub const GRID_SIDE: usize = 150;

pub const STAR_COUNT: usize = 30;

/// Holding the speedup key multiplies the frame counter by this factor
/// (the fractional visual speedup truncates to a whole frame multiplier).
pub const SPEEDUP_FRAMES: u64 = 9;

pub struct SimState {
    pub sun: Sun,
    pub grid: DensityGrid,
    pub sky_color: Color,
    pub darkened_sky_color: Color,
    pub stars: StarField,
    pub moon: MoonTexture,
    pub speedup: bool,
}

impl SimState {
    pub open spec fn wf(self) -> bool {
        &&& self.sun.wf()
        &&& self.sun.cfg == spec_default_config()
        &&& self.grid.wf()
        &&& self.grid.cells@.len() == 150
        &&& self.stars.points@.len() == 30
        &&& self.stars.wf(450)
    }

    /// The initial state: the sun at its start point, an all-zero grid,
    /// both colors at the day-blue endpoint, freshly sampled stars, the
    /// moon texture generated from the given raw samples, speedup off.
    pub fn new(moon_raws: &Vec<i64>) -> (s: SimState)
        requires
            moon_raws@.len() == 1764,
        ensures
            s.wf(),
            s.sun.x == spec_pos_x_at(spec_default_config(), 0),
            s.sun.y == spec_pos_y_at(spec_default_config(), 0),
            s.sky_color == spec_day_blue(),
            s.darkened_sky_color == spec_day_blue(),
            s.moon.spots@ == spec_moon_spots(spec_default_moon(), moon_raws@, 1764),
            !s.speedup,
            forall|i: int|
                0 <= i < 150 ==> (#[trigger] s.grid.cells@[i]@.len() == 150 && forall|j: int|
                    0 <= j < 150 ==> #[trigger] s.grid.cells@[i]@[j] == 0),
    {
        let cfg = default_config();
        let sun = Sun::new(cfg);
        let grid = DensityGrid::zeros(GRID_SIDE);
        let stars = StarField::random_sky(STAR_COUNT, SCREEN_SIZE);
        let moon = MoonTexture::generate(default_moon(), moon_raws);
        SimState {
            sun,
            grid,
            sky_color: day_blue(),
            darkened_sky_color: day_blue(),
            stars,
            moon,
            speedup: false,
        }
    }

    /// Record the state of the speedup input; nothing else changes.
    pub fn set_speedup(&mut self, on: bool)
        ensures
            *final(self) == (SimState { speedup: on, ..*old(self) }),
    {
        self.speedup = on;
    }

    /// The frame multiplier the current speedup state applies.
    pub open spec fn spec_frame_mult(self) -> nat {
        if self.speedup {
            9
        } else {
            1
        }
    }

    /// One frame: recompute the sun for the (possibly sped-up) cumulative
    /// frame count, rebuild the grid from the raw noise magnitudes,
    /// derive the sky color from the trajectory's day-cycle amount, then
    /// either darken it by the coverage of the sun's disc or, once the
    /// sun has set, use the fixed night color.
    pub fn step(&mut self, frames: u64, raw: &Vec<Vec<i64>>)
        requires
            old(self).wf(),
            raw@.len() == 150,
            forall|i: int| 0 <= i < raw@.len() ==> #[trigger] raw@[i]@.len() == raw@.len(),
        ensures
            final(self).wf(),
            final(self).speedup == old(self).speedup,
            final(self).stars == old(self).stars,
            final(self).moon == old(self).moon,
            final(self).sun.x == spec_pos_x_at(
                spec_default_config(),
                frames as nat * old(self).spec_frame_mult(),
            ),
            final(self).sun.y == spec_pos_y_at(
                spec_default_config(),
                frames as nat * old(self).spec_frame_mult(),
            ),
            forall|i: int|
                0 <= i < 150 ==> #[trigger] final(self).grid.cells@[i]@
                    == crate::clouds::spec_column(raw@[i]@),
            final(self).sky_color == spec_transition_sky_color(
                final(self).sun.spec_sky_amount(),
            ),
            final(self).darkened_sky_color == if final(self).sun.spec_has_set() {
                spec_night_dark()
            } else {
                spec_darken_by(
                    final(self).sky_color,
                    spec_darken_factor(
                        spec_coverage(
                            final(self).grid.cells@.map_values(|row: Vec<u32>| row@),
                            150,
                            final(self).sun.x as int,
                            final(self).sun.y as int,
                            300000,
                            3,
                        ),
                    ),
                )
            },
    {
        let mult: u64 = if self.speedup {
            SPEEDUP_FRAMES
        } else {
            1
        };
        // The angle only depends on the frame count modulo a full turn of
        // whole frames, so the multiplied count can be reduced first and
        // never overflows.
        let fm: u64 = frames % 36000;
        proof {
            assert(fm * mult <= 323991) by (nonlinear_arith)
                requires
                    fm < 36000,
                    mult <= 9,
            ;
        }
        let eff: u64 = fm * mult;
        self.sun.advance_sun_pos(eff);
        proof {
            let c = spec_default_config();
            let f = frames as nat * (if old(self).speedup {
                9nat
            } else {
                1nat
            });
            assert((36000 * c.speed_cdeg) % 36000 == 0) by {
                vstd::arithmetic::div_mod::lemma_mod_multiples_vanish(
                    c.speed_cdeg as int,
                    0,
                    36000,
                );
            };
            lemma_position_periodic(c, f, 36000);
            assert((frames as nat % 36000) * (if old(self).speedup {
                9nat
            } else {
                1nat
            }) == eff as nat);
            lemma_mult_mod_turn(frames as nat, (if old(self).speedup {
                9nat
            } else {
                1nat
            }));
            lemma_position_periodic(c, eff as nat, 36000);
        }
        self.grid = DensityGrid::from_raw(raw);
        let amount = self.sun.sky_amount();
        self.sky_color = transition_sky_color(amount);
        if !self.sun.has_set() {
            let sum = coverage_sum(&self.grid, self.sun.x, self.sun.y, 300000, CELL_PX);
            let factor = darken_factor(sum);
            self.darkened_sky_color = darken_by(self.sky_color, factor);
        } else {
            self.darkened_sky_color = night_dark();
        }
    }
}

/// Reducing the frame count modulo a whole turn of frames before scaling
/// it leaves the scaled count congruent modulo that turn.
proof fn lemma_mult_mod_turn(f: nat, m: nat)
    requires
        m >= 1,
    ensures
        ((f % 36000) * m) % 36000 == (f * m) % 36000,
{
    vstd::arithmetic::div_mod::lemma_mul_mod_noop_left(f as int, m as int, 36000);
}

} // verus!
