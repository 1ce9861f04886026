use skysim::clouds::{collide_circle_point, coverage_sum, darken_factor, density_fp, DensityGrid};
use skysim::color::{
    darken_by, day_blue, night_dark, sunset_orange, transition_sky_color, white_with_alpha,
    with_alpha, Color,
};
use skysim::easing::ease_fp;
use skysim::moon::{default_moon, moon_alpha, MoonTexture};
use skysim::stars::StarField;
use skysim::sun::{default_config, Sun};
use skysim::state::SimState;

fn zero_raw_grid(n: usize) -> Vec<Vec<i64>> {
    let mut raw = Vec::new();
    for _ in 0..n {
        let mut row = Vec::new();
        for _ in 0..n {
            row.push(0i64);
        }
        raw.push(row);
    }
    raw
}

// --- sun trajectory ---

#[test]
fn sun_starts_at_configured_position() {
    let sun = Sun::new(default_config());
    assert_eq!(sun.x, 2250000);
    assert_eq!(sun.y, 3600000);
    assert!(!sun.has_set());
}

#[test]
fn sun_position_is_periodic() {
    // 40000 frames and 40000 mod 36000 frames give the same position:
    // 36000 frames advance the angle by a whole number of turns.
    let mut a = Sun::new(default_config());
    let mut b = Sun::new(default_config());
    a.advance_sun_pos(40000);
    b.advance_sun_pos(4000);
    assert_eq!(a.x, b.x);
    assert_eq!(a.y, b.y);

    let mut c = Sun::new(default_config());
    let mut d = Sun::new(default_config());
    c.advance_sun_pos(123);
    d.advance_sun_pos(123 + 36000);
    assert_eq!(c.x, d.x);
    assert_eq!(c.y, d.y);
}

#[test]
fn sun_advance_zero_is_start() {
    let mut sun = Sun::new(default_config());
    sun.advance_sun_pos(0);
    assert_eq!(sun.x, 2250000);
    assert_eq!(sun.y, 3600000);
}

#[test]
fn rising_and_setting_never_both_defined() {
    let mut sun = Sun::new(default_config());
    for f in 0..360 {
        sun.advance_sun_pos(f * 100);
        let rising = sun.rising_amount();
        let setting = sun.setting_amount();
        assert!(!(rising.is_some() && setting.is_some()));
        if let Some(a) = rising {
            assert!((0..=10000).contains(&a));
        }
        if let Some(a) = setting {
            assert!((0..=10000).contains(&a));
        }
    }
}

#[test]
fn rising_scenario() {
    // Left edge 20 pixels left of the boundary while the sun registers
    // as set: the rise query is defined, the set query is not.
    let sun = Sun { cfg: default_config(), x: 100000, y: 3000000 };
    assert!(sun.has_set());
    let rising = sun.rising_amount();
    assert!(rising.is_some());
    assert!(sun.setting_amount().is_none());
    let amt = rising.unwrap();
    assert!((0..=10000).contains(&amt));
    // linear fraction (edge + 2R) / 2R = 6666 of SCALE; the log easing
    // maps it to log10(6.666) of SCALE.
    assert!((8200..=8300).contains(&amt));
    assert_eq!(sun.sky_amount(), 10000 - amt);
}

#[test]
fn setting_scenario() {
    // Right edge 33 pixels past the right boundary while still visible:
    // the set query is defined, the rise query is not.
    let sun = Sun { cfg: default_config(), x: 4530000, y: 3000000 };
    assert!(!sun.has_set());
    let setting = sun.setting_amount();
    assert!(setting.is_some());
    assert!(sun.rising_amount().is_none());
    let amt = setting.unwrap();
    // linear fraction (edge - screen) / 2R = 5500 of SCALE; eased to
    // log10(5.5) of SCALE.
    assert!((7350..=7450).contains(&amt));
    assert_eq!(sun.sky_amount(), amt);
    // setting amount at or below 0.85 keeps the stars invisible
    assert_eq!(sun.star_alpha(), 0);
}

#[test]
fn full_night_scenario() {
    // Sun below the horizon with its left edge inside the screen: set,
    // with neither transition defined - full night.
    let sun = Sun { cfg: default_config(), x: 2250000, y: -3600000 };
    assert!(sun.has_set());
    assert!(sun.rising_amount().is_none());
    assert!(sun.setting_amount().is_none());
    assert_eq!(sun.sky_amount(), 10000);
    assert_eq!(sun.star_alpha(), 10000);
    assert_eq!(transition_sky_color(sun.sky_amount()), night_dark());
}

#[test]
fn full_day_scenario() {
    let sun = Sun::new(default_config());
    assert_eq!(sun.sky_amount(), 0);
    assert_eq!(sun.star_alpha(), 0);
}

// --- easing ---

#[test]
fn ease_endpoints() {
    assert_eq!(ease_fp(10000), 10000);
    assert_eq!(ease_fp(1000), 0);
    assert_eq!(ease_fp(999), 0);
    assert_eq!(ease_fp(0), 0);
}

#[test]
fn ease_midpoint_is_half() {
    // log10(3.162) is 0.4999...: the fraction whose logarithm sits
    // halfway lies near the square root of ten tenths.
    let mid = ease_fp(3162);
    assert!((4950..=5050).contains(&mid), "mid easing was {mid}");
}

#[test]
fn ease_is_monotone_on_samples() {
    let mut prev = 0i64;
    let mut frac = 1000i64;
    while frac <= 10000 {
        let e = ease_fp(frac);
        assert!(e >= prev);
        prev = e;
        frac += 250;
    }
}

// --- colors ---

#[test]
fn transition_endpoints_match_stops() {
    assert_eq!(transition_sky_color(0), day_blue());
    assert_eq!(transition_sky_color(10000), night_dark());
    assert_eq!(transition_sky_color(5000), sunset_orange());
}

#[test]
fn transition_red_monotone_within_halves() {
    // Day half: red rises toward the sunset stop.
    let mut prev = transition_sky_color(0).red;
    for amount in [1000i64, 2000, 3000, 4000, 5000] {
        let c = transition_sky_color(amount);
        assert!(c.red >= prev);
        prev = c.red;
    }
    // Night half: every channel falls toward the night stop.
    let mut prev = transition_sky_color(5000);
    for amount in [6000i64, 7000, 8000, 9000, 10000] {
        let c = transition_sky_color(amount);
        assert!(c.red <= prev.red);
        assert!(c.green <= prev.green);
        assert!(c.blue <= prev.blue);
        prev = c;
    }
}

#[test]
fn darken_by_scales_channels() {
    let c = Color { red: 100, green: 200, blue: 50, alpha: 255 };
    let d = darken_by(c, 2000);
    assert_eq!(d, Color { red: 80, green: 160, blue: 40, alpha: 255 });
    assert_eq!(darken_by(c, 0), c);
    assert_eq!(darken_by(c, 10000), Color { red: 0, green: 0, blue: 0, alpha: 255 });
}

#[test]
fn with_alpha_maps_opacity() {
    let c = day_blue();
    assert_eq!(with_alpha(c, 10000).alpha, 255);
    assert_eq!(with_alpha(c, 5000).alpha, 127);
    assert_eq!(with_alpha(c, 0).alpha, 0);
    assert_eq!(with_alpha(c, 5000).red, c.red);
}

#[test]
fn white_with_alpha_is_white() {
    let c = white_with_alpha(10000);
    assert_eq!(c, Color { red: 255, green: 255, blue: 255, alpha: 255 });
    assert_eq!(white_with_alpha(0).alpha, 0);
}

#[test]
fn circle_point_containment_is_euclidean() {
    // 3-4-5 triangle, in pixels times SCALE
    assert!(collide_circle_point(30000, 40000, 0, 0, 50000));
    assert!(!collide_circle_point(30000, 40000, 0, 0, 49999));
    assert!(collide_circle_point(-30000, -40000, 0, 0, 50000));
}

// --- cloud densities ---

#[test]
fn density_below_cutoff_is_zero() {
    assert_eq!(density_fp(0), 0);
    assert_eq!(density_fp(5999), 0);
    assert_eq!(density_fp(-5999), 0);
    assert_eq!(density_fp(6000), 0);
}

#[test]
fn density_remap_values() {
    assert_eq!(density_fp(9000), 5000);
    assert_eq!(density_fp(-9000), 5000);
    assert_eq!(density_fp(12000), 10000);
    assert_eq!(density_fp(7500), 2500);
}

#[test]
fn density_clamps_above_one() {
    assert_eq!(density_fp(20000), 10000);
    assert_eq!(density_fp(i64::MAX), 10000);
    assert_eq!(density_fp(i64::MIN), 10000);
}

#[test]
fn density_always_in_range() {
    let mut raw = -30000i64;
    while raw <= 30000 {
        let d = density_fp(raw);
        assert!(d <= 10000);
        raw += 777;
    }
}

#[test]
fn grid_from_raw_matches_per_cell_density() {
    let mut raw = Vec::new();
    for i in 0..150i64 {
        let mut row = Vec::new();
        for j in 0..150i64 {
            row.push((i * 150 + j) * 2);
        }
        raw.push(row);
    }
    let grid = DensityGrid::from_raw(&raw);
    assert_eq!(grid.cells.len(), 150);
    for i in [0usize, 3, 77, 149] {
        assert_eq!(grid.cells[i].len(), 150);
        for j in [0usize, 50, 149] {
            assert_eq!(grid.cells[i][j], density_fp(raw[i][j]));
        }
    }
}

// --- occlusion ---

#[test]
fn coverage_sums_cells_inside_disc() {
    // 2x2 grid, cells rasterized at 3 pixels apart; a 3-pixel radius
    // centered on cell (0,0) covers three of the four cells.
    let raw = vec![vec![9000i64, 12000], vec![12000, 5999]];
    let grid = DensityGrid::from_raw(&raw);
    let sum = coverage_sum(&grid, 0, 0, 30000, 3);
    assert_eq!(sum, 5000 + 10000 + 10000);
}

#[test]
fn coverage_of_zero_grid_is_zero() {
    let grid = DensityGrid::zeros(150);
    assert_eq!(coverage_sum(&grid, 2250000, 3600000, 300000, 3), 0);
}

#[test]
fn darken_factor_endpoints() {
    assert_eq!(darken_factor(0), 0);
    assert_eq!(darken_factor(-5), 0);
    assert_eq!(darken_factor(1200000), 4000);
    assert_eq!(darken_factor(i64::MAX), 4000);
}

#[test]
fn darken_factor_linear_in_between() {
    assert_eq!(darken_factor(300), 1);
    assert_eq!(darken_factor(299), 0);
    assert_eq!(darken_factor(600000), 2000);
}

// --- moon texture ---

#[test]
fn moon_alpha_threshold_and_remap() {
    assert_eq!(moon_alpha(0), 0);
    assert_eq!(moon_alpha(2000), 0);
    assert_eq!(moon_alpha(4000), 1062);
    assert_eq!(moon_alpha(-4000), 1062);
    assert_eq!(moon_alpha(20000), 8500);
    assert_eq!(moon_alpha(i64::MAX), 8500);
}

#[test]
fn moon_texture_is_deterministic() {
    let mut raws = Vec::new();
    for k in 0..1764i64 {
        raws.push(k * 17 % 20000 - 10000);
    }
    let t1 = MoonTexture::generate(default_moon(), &raws);
    let t2 = MoonTexture::generate(default_moon(), &raws);
    assert_eq!(t1.spots, t2.spots);
}

#[test]
fn moon_texture_covers_exactly_the_disc() {
    let raws = vec![13333i64; 1764];
    let t = MoonTexture::generate(default_moon(), &raws);
    let mut expected = 0usize;
    for i in -21i64..21 {
        for j in -21i64..21 {
            if i * i + j * j < 441 {
                expected += 1;
            }
        }
    }
    assert_eq!(t.spots.len(), expected);
    for spot in &t.spots {
        assert!(spot.alpha <= 8500);
        assert_eq!(spot.alpha, 8498);
        let dx = spot.x - 1125000;
        let dy = spot.y - 4068000;
        assert!(dx * dx + dy * dy < 210000 * 210000);
    }
}

// --- stars ---

#[test]
fn star_field_has_exact_count_within_bounds() {
    let stars = StarField::random_sky(30, 450);
    assert_eq!(stars.points().len(), 30);
    for &(x, y) in stars.points() {
        assert!((0..4500000).contains(&x));
        assert!((0..4500000).contains(&y));
    }
}

// --- end to end ---

#[test]
fn frame_zero_with_speedup_off() {
    let moon_raws = vec![0i64; 1764];
    let mut state = SimState::new(&moon_raws);
    assert_eq!(state.sky_color, day_blue());
    assert_eq!(state.darkened_sky_color, day_blue());
    assert!(!state.speedup);

    let raw = zero_raw_grid(150);
    state.step(0, &raw);
    assert_eq!(state.sun.x, 2250000);
    assert_eq!(state.sun.y, 3600000);
    assert!(!state.sun.has_set());
    assert!(state.sun.rising_amount().is_none());
    assert!(state.sun.setting_amount().is_none());
    assert_eq!(state.sky_color, day_blue());
    // zero grid: coverage 0, darken factor 0, color unchanged
    assert_eq!(state.darkened_sky_color, day_blue());
}

#[test]
fn speedup_scales_the_frame_counter() {
    let moon_raws = vec![0i64; 1764];
    let mut state = SimState::new(&moon_raws);
    state.set_speedup(true);
    assert!(state.speedup);
    let raw = zero_raw_grid(150);
    state.step(1000, &raw);

    let mut reference = Sun::new(default_config());
    reference.advance_sun_pos(9000);
    assert_eq!(state.sun.x, reference.x);
    assert_eq!(state.sun.y, reference.y);
}

#[test]
fn step_darkens_by_cloud_coverage() {
    let moon_raws = vec![0i64; 1764];
    let mut state = SimState::new(&moon_raws);
    // saturate every cell so the sun disc is fully covered
    let raw = vec![vec![12000i64; 150]; 150];
    state.step(0, &raw);
    assert!(!state.sun.has_set());
    let sky = state.sky_color;
    let sum = coverage_sum(&state.grid, state.sun.x, state.sun.y, 300000, 3);
    assert!(sum > 0);
    let expected = darken_by(sky, darken_factor(sum));
    assert_eq!(state.darkened_sky_color, expected);
    assert!(state.darkened_sky_color.red < sky.red);
}

#[test]
fn night_step_uses_fixed_night_color() {
    let moon_raws = vec![0i64; 1764];
    let mut state = SimState::new(&moon_raws);
    let raw = zero_raw_grid(150);
    // A quarter turn plus: drive the sun well past the horizon.
    // angle 9000 centidegrees needs 9000/7 frames; use half a turn.
    state.step(18000 / 7 + 1, &raw);
    if state.sun.has_set() {
        assert_eq!(state.darkened_sky_color, night_dark());
    } else {
        // the chosen frame count must have set the sun; fail loudly
        panic!("sun unexpectedly visible at x={} y={}", state.sun.x, state.sun.y);
    }
}
