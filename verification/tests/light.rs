use jiggly::chart::{Ctx, During};
use jiggly::config::{Knobs, UNIT};
use jiggly::led::{
    active_remaining, angle_now, band_for, blink_fast_red, blink_on, boot_sweep, breath_angle,
    breathe_angle, breathe_band, breathe_color, breathe_for, color_now, fade_to_green, paint_white, power_off_neo,
    pulse_blue, pulse_white, run_before_shutdown_e, shutdown_flashes, sin_breath, Angle, Band,
    LedStep, Rgb,
};
use libm::cosf;

const MIN: u64 = 60_000_000;
const PI: f32 = core::f32::consts::PI;

fn cosine(a: Angle) -> i64 {
    let phase = 2.0 * PI * a.part as f32 / a.whole as f32;
    (cosf(phase) as f64 * UNIT as f64).round() as i64
}

/// A breath in single precision.
fn float_breath(period_ms: u64, t_ms: u64, floor: u8, peak: u8) -> u8 {
    let phase = 2.0 * PI * (t_ms % period_ms) as f32 / period_ms as f32;
    let val = (1.0 - cosf(phase)) * 0.5;
    floor + (val * peak.saturating_sub(floor) as f32) as u8
}

#[test]
fn breath_matches_single_precision() {
    for period_ms in [500, 800, 1200, 2000, 3000, 4000] {
        for ms in 0..2 * period_ms {
            let c = cosine(breath_angle(period_ms * 1000, ms * 1000 + 7));
            assert_eq!(sin_breath(c, 1, 16), float_breath(period_ms, ms, 1, 16));
        }
    }
}

#[test]
fn breath_has_floor_and_peak() {
    assert_eq!(sin_breath(UNIT, 1, 16), 1);
    assert_eq!(sin_breath(0, 1, 16), 8);
    assert_eq!(sin_breath(-UNIT, 1, 16), 16);
    assert_eq!(sin_breath(-UNIT, 0, 255), 255);
    assert_eq!(sin_breath(-UNIT, 9, 4), 9);
}

#[test]
fn breath_angle_counts_whole_milliseconds() {
    assert_eq!(breath_angle(3_000_000, 3_000_999), Angle { part: 0, whole: 3000 });
    assert_eq!(breath_angle(3_000_000, 3_001_000), Angle { part: 1, whole: 3000 });
    assert_eq!(breath_angle(3_000_000, 8_999_999), Angle { part: 2999, whole: 3000 });
}

#[test]
fn fade_matches_single_precision() {
    for ms in 0..1300u64 {
        let t = ((ms as f32) / 600.0).min(1.0);
        let rb = (16.0f32 * (1.0 - t)) as u8;
        assert_eq!(fade_to_green(ms * 1000 + 999), Rgb { r: rb, g: 16, b: rb });
    }
}

#[test]
fn fade_goes_from_white_to_green() {
    assert_eq!(fade_to_green(0), Rgb { r: 16, g: 16, b: 16 });
    assert_eq!(fade_to_green(300_000), Rgb { r: 8, g: 16, b: 8 });
    assert_eq!(fade_to_green(600_000), Rgb { r: 0, g: 16, b: 0 });
    assert_eq!(fade_to_green(u64::MAX), Rgb { r: 0, g: 16, b: 0 });
}

#[test]
fn blink_is_on_for_half_its_period() {
    assert!(blink_on(500_000, 0));
    assert!(blink_on(500_000, 249_999));
    assert!(!blink_on(500_000, 250_000));
    assert!(!blink_on(500_000, 499_999));
    assert!(blink_on(500_000, 500_000));
    assert_eq!(blink_fast_red(0), Rgb { r: 16, g: 0, b: 0 });
    assert_eq!(blink_fast_red(300_000), Rgb { r: 1, g: 0, b: 0 });
}

#[test]
fn shipping_looks_change_at_their_thresholds() {
    let k = Knobs::shipping();
    assert_eq!(band_for(&k, 22 * MIN + 1), Band::Green);
    assert_eq!(band_for(&k, 22 * MIN), Band::Yellow);
    assert_eq!(band_for(&k, 11 * MIN + 1), Band::Yellow);
    assert_eq!(band_for(&k, 11 * MIN), Band::Red);
    assert_eq!(band_for(&k, 4 * MIN + 1), Band::Red);
    assert_eq!(band_for(&k, 4 * MIN), Band::FastRed);
    assert_eq!(band_for(&k, 0), Band::FastRed);
}

#[test]
fn four_hour_looks_change_at_their_thresholds() {
    let k = Knobs::four_hours();
    assert_eq!(k.run_duration(), 240 * MIN);
    assert_eq!(band_for(&k, 30 * MIN + 1), Band::Green);
    assert_eq!(band_for(&k, 30 * MIN), Band::Yellow);
    assert_eq!(band_for(&k, 25 * MIN), Band::Red);
    assert_eq!(band_for(&k, 20 * MIN), Band::FastRed);
}

#[test]
fn look_periods_quicken() {
    assert_eq!(Band::Green.period(), 4_000_000);
    assert_eq!(Band::Yellow.period(), 3_000_000);
    assert_eq!(Band::Red.period(), 2_000_000);
    assert_eq!(Band::FastRed.period(), 500_000);
}

#[test]
fn yellow_scales_its_green_down() {
    let k = Knobs::shipping();
    assert_eq!(breathe_for(&k, 20 * MIN, 0, -UNIT), Rgb { r: 16, g: 8, b: 0 });
    assert_eq!(breathe_for(&k, 20 * MIN, 0, UNIT / 3), Rgb { r: 6, g: 3, b: 0 });
    assert_eq!(breathe_for(&k, 60 * MIN, 0, -UNIT), Rgb { r: 0, g: 16, b: 0 });
    assert_eq!(breathe_for(&k, 10 * MIN, 0, UNIT), Rgb { r: 1, g: 0, b: 0 });
    assert_eq!(breathe_for(&k, MIN, 0, 5), Rgb { r: 16, g: 0, b: 0 });
    assert_eq!(breathe_for(&k, MIN, 250_000, 5), Rgb { r: 1, g: 0, b: 0 });
}

#[test]
fn breathing_counts_from_the_active_start() {
    let k = Knobs::shipping();
    let mut ctx = Ctx { active_start: None };
    assert_eq!(breathe_band(&k, &ctx, 1_000 * MIN), Band::Green);
    ctx.capture_active_start(5_000_000);
    assert_eq!(ctx.active_start, Some(5_000_000));
    assert_eq!(ctx.active_elapsed(7_000_000), 2_000_000);
    assert_eq!(run_before_shutdown_e(&k), 13_830_000_000);
    assert_eq!(active_remaining(&k, 13_829_000_000), 1_000_000);
    assert_eq!(active_remaining(&k, 13_831_000_000), 0);
    let yellow = 5_000_000 + 13_830_000_000 - 22 * MIN;
    assert_eq!(breathe_band(&k, &ctx, yellow - 1), Band::Green);
    assert_eq!(breathe_band(&k, &ctx, yellow), Band::Yellow);
    assert_eq!(breathe_color(&k, &ctx, yellow, -UNIT), Rgb { r: 16, g: 8, b: 0 });
}

#[test]
fn pulses_and_flash_have_their_colours() {
    assert_eq!(pulse_blue(-UNIT), Rgb { r: 0, g: 0, b: 16 });
    assert_eq!(pulse_white(UNIT), Rgb { r: 1, g: 1, b: 1 });
    assert_eq!(paint_white(), Rgb { r: 160, g: 160, b: 160 });
}

#[test]
fn boot_sweep_shows_red_green_blue() {
    let steps = boot_sweep();
    let mut shown: Vec<Rgb> = Vec::new();
    let mut waited = 0;
    for s in steps {
        match s {
            LedStep::Paint(c) => shown.push(c),
            LedStep::Wait(t) => waited += t,
            LedStep::Power(on) => assert!(on),
        }
    }
    assert_eq!(
        shown,
        vec![
            Rgb { r: 16, g: 0, b: 0 },
            Rgb { r: 0, g: 16, b: 0 },
            Rgb { r: 0, g: 0, b: 16 },
            Rgb { r: 0, g: 0, b: 0 },
        ]
    );
    assert_eq!(waited, 182_000);
}

#[test]
fn shutdown_flashes_green_three_times() {
    let steps = shutdown_flashes();
    assert_eq!(steps.len(), 12);
    let green = steps.iter().filter(|s| **s == LedStep::Paint(Rgb { r: 0, g: 16, b: 0 })).count();
    let dark = steps.iter().filter(|s| **s == LedStep::Paint(Rgb { r: 0, g: 0, b: 0 })).count();
    assert_eq!((green, dark), (3, 3));
    assert_eq!(steps[1], LedStep::Wait(400_000));
    assert_eq!(steps[10], LedStep::Paint(Rgb { r: 0, g: 0, b: 0 }));
    assert_eq!(power_off_neo(), LedStep::Power(false));
}

#[test]
fn activities_breathe_at_their_periods() {
    let k = Knobs::shipping();
    let ctx = Ctx { active_start: Some(1_000_000) };
    let now = 3_500_000;
    let t = 900_000;
    assert_eq!(angle_now(During::PulseBlue, &k, &ctx, now, t), Some(Angle { part: 100, whole: 800 }));
    assert_eq!(angle_now(During::PulseWhite, &k, &ctx, now, t), Some(Angle { part: 900, whole: 1200 }));
    assert_eq!(angle_now(During::BreatheColor, &k, &ctx, now, t), Some(Angle { part: 500, whole: 4000 }));
    let last = 1_000_000 + 230 * MIN;
    assert_eq!(angle_now(During::BreatheColor, &k, &ctx, last, t), None);
    assert_eq!(angle_now(During::FadeToGreen, &k, &ctx, now, t), None);
}

#[test]
fn activities_show_their_colours() {
    let k = Knobs::shipping();
    let ctx = Ctx { active_start: Some(1_000_000) };
    let now = 3_500_000;
    let color = |d: During| color_now(d, &k, &ctx, now, 300_000, -UNIT);
    assert_eq!(color(During::PulseBlue), Some(Rgb { r: 0, g: 0, b: 16 }));
    assert_eq!(color(During::PulseWhite), Some(Rgb { r: 16, g: 16, b: 16 }));
    assert_eq!(color(During::FadeToGreen), Some(Rgb { r: 8, g: 16, b: 8 }));
    assert_eq!(color(During::BreatheColor), Some(Rgb { r: 0, g: 16, b: 0 }));
    assert_eq!(color(During::BlinkFastRed), Some(Rgb { r: 1, g: 0, b: 0 }));
    assert_eq!(color(During::BootSweep), None);
    assert_eq!(color(During::AnimateSpinner), None);
}

#[test]
fn breathing_takes_over_from_the_fade() {
    for k in [Knobs::shipping(), Knobs::four_hours()] {
        let ctx = Ctx { active_start: Some(4_382_000) };
        let now = 4_382_000;
        let a = angle_now(During::BreatheColor, &k, &ctx, now, 0).unwrap();
        assert_eq!(a, Angle { part: 2000, whole: 4000 });
        let first = color_now(During::BreatheColor, &k, &ctx, now, 0, cosine(a)).unwrap();
        assert_eq!(first, Rgb { r: 0, g: 16, b: 0 });
        assert_eq!(first, fade_to_green(600_000));
    }
}

#[test]
fn green_breath_goes_from_its_peak_to_its_floor_and_back() {
    let k = Knobs::shipping();
    let ctx = Ctx { active_start: Some(1_000) };
    let level = |t: u64| {
        let now = 1_000 + t;
        let a = angle_now(During::BreatheColor, &k, &ctx, now, 0).unwrap();
        color_now(During::BreatheColor, &k, &ctx, now, 0, cosine(a)).unwrap().g
    };
    assert_eq!((level(0), level(2_000_000), level(4_000_000)), (16, 1, 16));
    for ms in 0..8000u64 {
        assert_eq!(level(ms * 1000), float_breath(4000, ms + 2000, 1, 16));
    }
}

#[test]
fn other_breaths_start_at_their_floor() {
    let active = Ctx { active_start: Some(0) };
    assert_eq!(breathe_angle(Band::Yellow, &active, 700_000), Angle { part: 700, whole: 3000 });
    assert_eq!(breathe_angle(Band::Red, &active, 2_700_000), Angle { part: 700, whole: 2000 });
    assert_eq!(breathe_angle(Band::Green, &active, 3_000_000), Angle { part: 1000, whole: 4000 });
    let before = Ctx { active_start: None };
    assert_eq!(breathe_angle(Band::Green, &before, 700_000), Angle { part: 0, whole: 4000 });
    assert_eq!(
        breathe_angle(Band::Green, &Ctx { active_start: Some(0) }, u64::MAX),
        Angle { part: (u64::MAX / 1000 + 2000) % 4000, whole: 4000 }
    );
}
