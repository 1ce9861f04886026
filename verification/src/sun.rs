//! The sun's day/night trajectory and its derived queries.
//!
//! The position is never integrated: it is recomputed each frame from the
//! cumulative frame count alone, by rotating a fixed start point around a
//! fixed pivot by an angle proportional to the frame count modulo one full
//! cycle. Positions are pixels times SCALE; angles are centidegrees.

use vstd::prelude::*;
use vstd::arithmetic::div_mod::{
    lemma_fundamental_div_mod, lemma_mod_multiples_vanish, lemma_mul_mod_noop_left,
};
use vstd::arithmetic::mul::lemma_mul_is_associative;
use crate::trig::{cos_fp, sin_fp, spec_cos, spec_sin, lemma_trig_at_zero};
use crate::easing::{ease_fp, spec_ease};
use crate::fixed::spec_clamp;

verus! {

/// The fixed parameters of the trajectory: pixel coordinates of the start
/// point and the pivot, the sun's disc radius and aura width, the square
/// screen size, and the cycle speed in centidegrees per frame.
#[derive(Clone, Copy, PartialEq, Eq, Structural, Debug)]
pub struct SunConfig {
    pub start_x: i64,
    pub start_y: i64,
    pub pivot_x: i64,
    pub pivot_y: i64,
    pub radius: i64,
    pub aura: i64,
    pub screen: i64,
    pub speed_cdeg: i64,
}

impl SunConfig {
    /// Bounds under which every trajectory computation stays in range.
    pub open spec fn wf(self) -> bool {
        &&& 0 <= self.start_x <= 100000
        &&& 0 <= self.start_y <= 100000
        &&& 0 <= self.pivot_x <= 100000
        &&& 0 <= self.pivot_y <= 100000
        &&& 1 <= self.radius <= 10000
        &&& 0 <= self.aura <= 10000
        &&& 1 <= self.screen <= 100000
        &&& 1 <= self.speed_cdeg <= 36000
    }
}

/// The default scene: a 450-pixel screen, the sun starting high mid-sky,
/// rotating about the mid-bottom point at 0.07 degrees per frame, with a
/// 30-pixel disc and a 30-pixel aura.
pub open spec fn spec_default_config() -> SunConfig {
    SunConfig {
        start_x: 225,
        start_y: 360,
        pivot_x: 225,
        pivot_y: 0,
        radius: 30,
        aura: 30,
        screen: 450,
        speed_cdeg: 7,
    }
}

pub fn default_config() -> (c: SunConfig)
    ensures
        c == spec_default_config(),
        c.wf(),
{
    SunConfig {
        start_x: 225,
        start_y: 360,
        pivot_x: 225,
        pivot_y: 0,
        radius: 30,
        aura: 30,
        screen: 450,
        speed_cdeg: 7,
    }
}

/// The trajectory angle after `frames` frames, in [0, 36000).
pub open spec fn spec_angle_at(c: SunConfig, frames: nat) -> int {
    (frames * c.speed_cdeg) % 36000
}

/// The x position after `frames` frames: the start point rotated about the
/// pivot by the (negated) trajectory angle, in pixels times SCALE.
pub open spec fn spec_pos_x_at(c: SunConfig, frames: nat) -> int {
    c.pivot_x * 10000 + spec_cos(spec_angle_at(c, frames)) * (c.start_x - c.pivot_x) + spec_sin(
        spec_angle_at(c, frames),
    ) * (c.start_y - c.pivot_y)
}

/// The y position after `frames` frames, in pixels times SCALE.
pub open spec fn spec_pos_y_at(c: SunConfig, frames: nat) -> int {
    c.pivot_y * 10000 - spec_sin(spec_angle_at(c, frames)) * (c.start_x - c.pivot_x) + spec_cos(
        spec_angle_at(c, frames),
    ) * (c.start_y - c.pivot_y)
}

/// The sun: its configuration and its current position, always the
/// recomputed trajectory position of some frame count.
#[derive(Clone, Copy, PartialEq, Eq, Structural, Debug)]
pub struct Sun {
    pub cfg: SunConfig,
    pub x: i64,
    pub y: i64,
}

impl Sun {
    pub open spec fn wf(self) -> bool {
        &&& self.cfg.wf()
        &&& -5_000_000_000 <= self.x <= 5_000_000_000
        &&& -5_000_000_000 <= self.y <= 5_000_000_000
    }

    /// A new sun rests at the configured start point, which is exactly its
    /// trajectory position at frame zero.
    pub fn new(cfg: SunConfig) -> (s: Sun)
        requires
            cfg.wf(),
        ensures
            s.wf(),
            s.cfg == cfg,
            s.x == spec_pos_x_at(cfg, 0),
            s.y == spec_pos_y_at(cfg, 0),
            s.x == cfg.start_x * 10000,
            s.y == cfg.start_y * 10000,
    {
        proof {
            lemma_position_at_zero(cfg);
        }
        Sun { cfg, x: cfg.start_x * 10000, y: cfg.start_y * 10000 }
    }

    /// Recompute the position for a cumulative frame count. The position
    /// depends on nothing but the configuration and `frames`.
    pub fn advance_sun_pos(&mut self, frames: u64)
        requires
            old(self).wf(),
        ensures
            final(self).wf(),
            final(self).cfg == old(self).cfg,
            final(self).x == spec_pos_x_at(old(self).cfg, frames as nat),
            final(self).y == spec_pos_y_at(old(self).cfg, frames as nat),
    {
        let fm: u64 = frames % 36000;
        proof {
            assert(0 <= (fm as int) * self.cfg.speed_cdeg <= 1295964000) by (nonlinear_arith)
                requires
                    0 <= fm < 36000,
                    1 <= self.cfg.speed_cdeg <= 36000,
            ;
        }
        let a: i64 = ((fm as i64) * self.cfg.speed_cdeg) % 36000;
        proof {
            lemma_mul_mod_noop_left(frames as int, self.cfg.speed_cdeg as int, 36000);
            assert(a == spec_angle_at(self.cfg, frames as nat));
        }
        let c = cos_fp(a);
        let s = sin_fp(a);
        let dx: i64 = self.cfg.start_x - self.cfg.pivot_x;
        let dy: i64 = self.cfg.start_y - self.cfg.pivot_y;
        proof {
            assert(-1000000000 <= c * dx <= 1000000000) by (nonlinear_arith)
                requires
                    -10000 <= c <= 10000,
                    -100000 <= dx <= 100000,
            ;
            assert(-1000000000 <= s * dx <= 1000000000) by (nonlinear_arith)
                requires
                    -10000 <= s <= 10000,
                    -100000 <= dx <= 100000,
            ;
            assert(-1000000000 <= c * dy <= 1000000000) by (nonlinear_arith)
                requires
                    -10000 <= c <= 10000,
                    -100000 <= dy <= 100000,
            ;
            assert(-1000000000 <= s * dy <= 1000000000) by (nonlinear_arith)
                requires
                    -10000 <= s <= 10000,
                    -100000 <= dy <= 100000,
            ;
        }
        self.x = self.cfg.pivot_x * 10000 + c * dx + s * dy;
        self.y = self.cfg.pivot_y * 10000 - s * dx + c * dy;
    }

    /// The sun counts as set unless its disc is fully above the horizon
    /// and its edges are within the screen's horizontal bounds: a single
    /// combined visibility predicate, not merely "below the horizon".
    pub open spec fn spec_has_set(self) -> bool {
        !(self.x - self.cfg.radius * 10000 > 0 && self.y > 0 && self.x - (self.cfg.radius
            + self.cfg.aura) * 10000 < self.cfg.screen * 10000)
    }

    pub fn has_set(&self) -> (r: bool)
        requires
            self.wf(),
        ensures
            r == self.spec_has_set(),
    {
        !(self.x - self.cfg.radius * 10000 > 0 && self.y > 0 && self.x - (self.cfg.radius
            + self.cfg.aura) * 10000 < self.cfg.screen * 10000)
    }

    /// The rise query is defined while the left edge is at or left of the
    /// screen's left boundary and the sun still registers as set.
    pub open spec fn spec_rising_defined(self) -> bool {
        self.x - self.cfg.radius * 10000 <= 0 && self.spec_has_set()
    }

    /// The linear fraction of the left edge across the entry band of width
    /// two radii, clamped to [0, SCALE].
    pub open spec fn spec_rising_frac(self) -> int {
        spec_clamp(
            (self.x - self.cfg.radius * 10000 + 2 * self.cfg.radius * 10000) / (2
                * self.cfg.radius),
            0,
            10000,
        )
    }

    /// While rising: the eased fraction of the left edge's crossing,
    /// in [0, SCALE]. Defined exactly when the left edge is at or left of
    /// the boundary and the sun registers as set.
    pub fn rising_amount(&self) -> (r: Option<i64>)
        requires
            self.wf(),
        ensures
            r is Some <==> self.spec_rising_defined(),
            r is Some ==> r->0 == spec_ease(self.spec_rising_frac()) && 0 <= r->0 <= 10000,
    {
        let edge_x: i64 = self.x - self.cfg.radius * 10000;
        if edge_x <= 0 && self.has_set() {
            let band: i64 = 2 * self.cfg.radius * 10000;
            let frac: i64 = if edge_x + band <= 0 {
                proof {
                    lemma_neg_div_nonpos(edge_x as int + band, 2 * self.cfg.radius);
                }
                0
            } else {
                let lin: i64 = (edge_x + band) / (2 * self.cfg.radius);
                proof {
                    lemma_linear_frac_range(edge_x as int + band, self.cfg.radius as int);
                }
                if lin > 10000 {
                    10000
                } else {
                    lin
                }
            };
            Some(ease_fp(frac))
        } else {
            None
        }
    }

    /// The set query is defined while the right edge is at or past the
    /// screen's right boundary and the sun does not yet register as set.
    pub open spec fn spec_setting_defined(self) -> bool {
        self.x + self.cfg.radius * 10000 >= self.cfg.screen * 10000 && !self.spec_has_set()
    }

    /// The linear fraction of the right edge across the exit band of width
    /// two radii, clamped to [0, SCALE].
    pub open spec fn spec_setting_frac(self) -> int {
        spec_clamp(
            (self.x + self.cfg.radius * 10000 - self.cfg.screen * 10000) / (2 * self.cfg.radius),
            0,
            10000,
        )
    }

    /// While setting: the eased fraction of the right edge's crossing,
    /// in [0, SCALE]. Defined exactly when the right edge is at or past
    /// the right boundary and the sun does not register as set.
    pub fn setting_amount(&self) -> (r: Option<i64>)
        requires
            self.wf(),
        ensures
            r is Some <==> self.spec_setting_defined(),
            r is Some ==> r->0 == spec_ease(self.spec_setting_frac()) && 0 <= r->0 <= 10000,
    {
        let edge_x: i64 = self.x + self.cfg.radius * 10000;
        let bound: i64 = self.cfg.screen * 10000;
        if edge_x >= bound && !self.has_set() {
            let lin: i64 = (edge_x - bound) / (2 * self.cfg.radius);
            proof {
                lemma_linear_frac_range(edge_x as int - bound, self.cfg.radius as int);
            }
            let frac: i64 = if lin > 10000 {
                10000
            } else {
                lin
            };
            Some(ease_fp(frac))
        } else {
            None
        }
    }

    /// At most one of the rise and set queries is ever defined: each one
    /// requires the opposite answer from the visibility predicate.
    pub proof fn lemma_rising_setting_exclusive(self)
        ensures
            !(self.spec_rising_defined() && self.spec_setting_defined()),
    {
    }

    /// The caller policy for the day-cycle amount: one minus the rise
    /// fraction while rising, the set fraction while setting, full night
    /// once set, full day otherwise.
    pub open spec fn spec_sky_amount(self) -> int {
        if self.spec_rising_defined() {
            10000 - spec_ease(self.spec_rising_frac())
        } else if self.spec_setting_defined() {
            spec_ease(self.spec_setting_frac())
        } else if self.spec_has_set() {
            10000
        } else {
            0
        }
    }

    /// The day-cycle amount in [0, SCALE] that drives the sky color.
    pub fn sky_amount(&self) -> (r: i64)
        requires
            self.wf(),
        ensures
            r == self.spec_sky_amount(),
            0 <= r <= 10000,
    {
        if let Some(amt) = self.rising_amount() {
            10000 - amt
        } else if let Some(amt) = self.setting_amount() {
            amt
        } else if self.has_set() {
            10000
        } else {
            0
        }
    }

    /// The star layer's opacity policy: stars fade in with the inverse of
    /// the rise amount, appear near the end of the set transition, are
    /// fully visible at night and invisible by day.
    pub open spec fn spec_star_alpha(self) -> int {
        if self.spec_rising_defined() {
            10000 - spec_ease(self.spec_rising_frac())
        } else if self.spec_setting_defined() {
            if spec_ease(self.spec_setting_frac()) > 8500 {
                (spec_ease(self.spec_setting_frac()) - 8500) * 10000 / 1500
            } else {
                0
            }
        } else if self.spec_has_set() {
            10000
        } else {
            0
        }
    }

    /// The star opacity in [0, SCALE] for the current sun state.
    pub fn star_alpha(&self) -> (r: i64)
        requires
            self.wf(),
        ensures
            r == self.spec_star_alpha(),
            0 <= r <= 10000,
    {
        if let Some(amt) = self.rising_amount() {
            10000 - amt
        } else if let Some(amt) = self.setting_amount() {
            if amt > 8500 {
                let r = (amt - 8500) * 10000 / 1500;
                proof {
                    vstd::arithmetic::div_mod::lemma_div_is_ordered(
                        0,
                        (amt as int - 8500) * 10000,
                        1500,
                    );
                    vstd::arithmetic::div_mod::lemma_div_is_ordered(
                        (amt as int - 8500) * 10000,
                        15000000int,
                        1500,
                    );
                    assert(15000000int / 1500 == 10000);
                }
                r
            } else {
                0
            }
        } else if self.has_set() {
            10000
        } else {
            0
        }
    }
}

/// At frame zero the angle is zero and the position is exactly the start
/// point.
pub proof fn lemma_position_at_zero(c: SunConfig)
    requires
        c.wf(),
    ensures
        spec_pos_x_at(c, 0) == c.start_x * 10000,
        spec_pos_y_at(c, 0) == c.start_y * 10000,
{
    assert(spec_angle_at(c, 0) == 0) by {
        assert(0 * c.speed_cdeg == 0) by (nonlinear_arith);
    };
    lemma_trig_at_zero();
    assert(spec_pos_x_at(c, 0) == c.pivot_x * 10000 + 10000 * (c.start_x - c.pivot_x) + 0 * (
    c.start_y - c.pivot_y));
    assert(0 * (c.start_y - c.pivot_y) == 0) by (nonlinear_arith);
    assert(0 * (c.start_x - c.pivot_x) == 0) by (nonlinear_arith);
    assert(10000 * (c.start_x - c.pivot_x) == c.start_x * 10000 - c.pivot_x * 10000)
        by (nonlinear_arith);
    assert(10000 * (c.start_y - c.pivot_y) == c.start_y * 10000 - c.pivot_y * 10000)
        by (nonlinear_arith);
}

/// Periodicity: any frame count `p` that advances the angle by a whole
/// number of turns is a period of the position; in particular, with the
/// cycle speed in degrees per frame, 360 / speed frames is such a period
/// whenever it is a whole number, and speed * full-turn frames always is.
pub proof fn lemma_position_periodic(c: SunConfig, f: nat, p: nat)
    requires
        c.wf(),
        p > 0,
        (p * c.speed_cdeg) % 36000 == 0,
    ensures
        spec_pos_x_at(c, f) == spec_pos_x_at(c, f % p),
        spec_pos_y_at(c, f) == spec_pos_y_at(c, f % p),
{
    lemma_angle_periodic(c, f, p);
}

/// The classic period formula: when the cycle speed divides a full turn,
/// the position repeats every full-turn / speed frames (360 degrees over
/// the per-frame speed), so `position(f) == position(f mod period)`.
pub proof fn lemma_position_period_from_speed(c: SunConfig, f: nat)
    requires
        c.wf(),
        36000int % (c.speed_cdeg as int) == 0,
    ensures
        spec_pos_x_at(c, f) == spec_pos_x_at(c, f % ((36000int / (c.speed_cdeg as int)) as nat)),
        spec_pos_y_at(c, f) == spec_pos_y_at(c, f % ((36000int / (c.speed_cdeg as int)) as nat)),
{
    let s = c.speed_cdeg as int;
    let p = 36000int / s;
    lemma_fundamental_div_mod(36000int, s);
    assert(36000int == s * p);
    assert(p >= 1) by (nonlinear_arith)
        requires
            s * p == 36000,
            1 <= s <= 36000,
    ;
    assert(p * s == s * p) by (nonlinear_arith);
    assert((p * s) % 36000 == 0);
    lemma_position_periodic(c, f, p as nat);
}

proof fn lemma_angle_periodic(c: SunConfig, f: nat, p: nat)
    requires
        c.wf(),
        p > 0,
        (p * c.speed_cdeg) % 36000 == 0,
    ensures
        spec_angle_at(c, f) == spec_angle_at(c, f % p),
{
    let s = c.speed_cdeg as int;
    let q = f as int / p as int;
    let r = f as int % p as int;
    lemma_fundamental_div_mod(f as int, p as int);
    assert(f as int == p * q + r);
    lemma_fundamental_div_mod(p * s, 36000);
    let m = (p * s) / 36000;
    assert(p * s == 36000 * m);
    assert((p * q + r) * s == (p * s) * q + r * s) by (nonlinear_arith);
    lemma_mul_is_associative(36000, m, q);
    assert((36000 * m) * q == 36000 * (m * q));
    assert(f as int * s == 36000 * (m * q) + r * s);
    lemma_mod_multiples_vanish(m * q, r * s, 36000);
}

proof fn lemma_linear_frac_range(num: int, radius: int)
    requires
        num >= 0,
        radius >= 1,
    ensures
        num / (2 * radius) >= 0,
{
    vstd::arithmetic::div_mod::lemma_div_is_ordered(0, num, 2 * radius);
}

proof fn lemma_neg_div_nonpos(num: int, den: int)
    requires
        num <= 0,
        den >= 1,
    ensures
        num / den <= 0,
{
    vstd::arithmetic::div_mod::lemma_div_is_ordered(num, 0, den);
}

} // verus!
