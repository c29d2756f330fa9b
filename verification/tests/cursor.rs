use jiggly::chart::{During, Ev};
use jiggly::config::{EASE_POW_DEN, EASE_POW_NUM, UNIT};
use jiggly::mouse::{
    jiggle_pair, mouse_report, mouse_wake, step_delta, Animation, Delta, MouseStep, Phase, Point,
    Shape, Stroke, WakeEvent, Wave,
};
use libm::{cosf, powf, roundf, sinf};

const PI: f32 = core::f32::consts::PI;

const ALL: [Animation; 5] = [
    Animation::WakeShake,
    Animation::Spinner,
    Animation::FinalSpiral,
    Animation::Warning5,
    Animation::Warning10,
];

fn parts(v: f32) -> i64 {
    (v as f64 * UNIT as f64).round() as i64
}

fn wave(a: Animation, frame: u32, die: u8) -> Wave {
    let (angle, ease) = match a.phase(frame) {
        Phase::Turned { part, whole } => ((part as f32) * 2.0 * PI / whole as f32, 0.0),
        Phase::Eased { part, whole, turns } => {
            let t = (part as f32) / (whole as f32);
            let u = powf(t, EASE_POW_NUM as f32 / EASE_POW_DEN as f32);
            (u * 2.0 * PI * turns as f32, u)
        }
    };
    Wave { sin: parts(sinf(angle)), cos: parts(cosf(angle)), ease: parts(ease), die }
}

/// A curve in single precision.
fn curve(a: Animation, f: u32, die: u8) -> (f32, f32) {
    let spiral = |start: f32, turns: f32, frames: u32| {
        let t = (f as f32) / (frames as f32);
        let u = powf(t, 2.5);
        let angle = u * 2.0 * PI * turns;
        let radius = start + (2.0 - start) * u;
        (radius * cosf(angle) - start, radius * sinf(angle))
    };
    match a {
        Animation::WakeShake => {
            let phase = (f as f32) * 2.0 * PI / 8.0;
            (60.0 * sinf(phase), ((die as f32) / 255.0 - 0.5) * 2.0 * 1.0)
        }
        Animation::Spinner => {
            let angle = (f as f32) * 2.0 * PI / 25.0;
            (40.0 * sinf(angle), 40.0 * (1.0 - cosf(angle)))
        }
        Animation::FinalSpiral => spiral(80.0, 5.0, 625),
        Animation::Warning5 => spiral(50.0, 3.0, 312),
        Animation::Warning10 => spiral(30.0, 2.0, 187),
    }
}

fn die(f: u32) -> u8 {
    (f * 37 % 256) as u8
}

/// The drawing in single precision, frame by frame.
fn float_deltas(a: Animation) -> Vec<(i8, i8)> {
    let (mut px, mut py, mut ax, mut ay) = (0.0f32, 0.0f32, 0.0f32, 0.0f32);
    let mut out: Vec<(i8, i8)> = Vec::new();
    for f in 0..a.frames() {
        let (nx, ny) = curve(a, f, die(f));
        let want_x = (nx - px) + ax;
        let want_y = (ny - py) + ay;
        let dx = roundf(want_x.clamp(-127.0, 127.0)) as i8;
        let dy = roundf(want_y.clamp(-127.0, 127.0)) as i8;
        ax = want_x - dx as f32;
        ay = want_y - dy as f32;
        px = nx;
        py = ny;
        out.push((dx, dy));
    }
    out
}

fn exact_deltas(a: Animation) -> Vec<(i8, i8)> {
    let mut stroke = Stroke::new();
    let mut out: Vec<(i8, i8)> = Vec::new();
    loop {
        let f = stroke.frame;
        match a.step(&mut stroke, wave(a, f, die(f))) {
            MouseStep::Move(d) => out.push((d.x, d.y)),
            MouseStep::Wait(t) => assert_eq!(t, 8_000),
            MouseStep::Done => return out,
        }
    }
}

#[test]
fn shake_matches_single_precision() {
    assert_eq!(exact_deltas(Animation::WakeShake), float_deltas(Animation::WakeShake));
}

#[test]
fn spinner_matches_single_precision() {
    assert_eq!(exact_deltas(Animation::Spinner), float_deltas(Animation::Spinner));
}

#[test]
fn spirals_match_single_precision() {
    for a in [Animation::FinalSpiral, Animation::Warning5, Animation::Warning10] {
        assert_eq!(exact_deltas(a), float_deltas(a));
    }
}

#[test]
fn curves_match_single_precision() {
    for a in ALL {
        for f in 0..a.frames() {
            let p = a.shape().target(wave(a, f, die(f)));
            let (x, y) = curve(a, f, die(f));
            assert!((p.x as f64 / UNIT as f64 - x as f64).abs() < 1e-4);
            assert!((p.y as f64 / UNIT as f64 - y as f64).abs() < 1e-4);
        }
    }
}

#[test]
fn drawings_stay_within_half_a_pixel_of_their_shape() {
    for a in ALL {
        let mut stroke = Stroke::new();
        let (mut x, mut y) = (0i64, 0i64);
        loop {
            let w = wave(a, stroke.frame, 200);
            let p = a.shape().target(w);
            match a.step(&mut stroke, w) {
                MouseStep::Move(d) => {
                    x += d.x as i64 * UNIT;
                    y += d.y as i64 * UNIT;
                    assert_eq!((x + stroke.acc.x, y + stroke.acc.y), (p.x, p.y));
                    assert!(2 * stroke.acc.x.abs() <= UNIT);
                    assert!(2 * stroke.acc.y.abs() <= UNIT);
                }
                MouseStep::Wait(_) => {}
                MouseStep::Done => break,
            }
        }
        assert_eq!(stroke.frame, a.frames());
    }
}

#[test]
fn curves_start_at_the_cursor() {
    let w = Wave { sin: 0, cos: UNIT, ease: 0, die: 255 };
    for a in ALL {
        let p = a.shape().target(w);
        assert_eq!(p.x, 0);
        assert_eq!(p.y, if a == Animation::WakeShake { UNIT } else { 0 });
    }
}

#[test]
fn curves_have_their_extremes() {
    let left = Wave { sin: -UNIT, cos: -UNIT, ease: UNIT, die: 0 };
    assert_eq!(Animation::WakeShake.shape().target(left), Point { x: -60 * UNIT, y: -UNIT });
    assert_eq!(Animation::Spinner.shape().target(left), Point { x: -40 * UNIT, y: 80 * UNIT });
    assert_eq!(Animation::FinalSpiral.shape().target(left), Point { x: -82 * UNIT, y: -2 * UNIT });
    let half = Wave { sin: UNIT / 2, cos: UNIT / 2, ease: UNIT / 2, die: 128 };
    assert_eq!(
        Animation::Warning10.shape().target(half),
        Point { x: -22 * UNIT, y: 8 * UNIT }
    );
    assert_eq!(
        Animation::WakeShake.shape().target(half),
        Point { x: 30 * UNIT, y: UNIT / 255 }
    );
}

#[test]
fn phases_run_over_whole_turns() {
    assert_eq!(Animation::WakeShake.phase(80), Phase::Turned { part: 80, whole: 8 });
    assert_eq!(Animation::Spinner.phase(75), Phase::Turned { part: 75, whole: 25 });
    assert_eq!(Animation::Warning5.phase(7), Phase::Eased { part: 7, whole: 312, turns: 3 });
    assert_eq!(
        Animation::FinalSpiral.shape(),
        Shape::Spiral { radius_start: 80, radius_end: 2, turns: 5 }
    );
}

#[test]
fn halves_round_away_from_zero() {
    let zero = Point { x: 0, y: 0 };
    let half = UNIT / 2;
    let (d, rest) = step_delta(zero, Point { x: half, y: -half }, zero);
    assert_eq!(d, Delta { x: 1, y: -1 });
    assert_eq!(rest, Point { x: -half, y: half });
    let (d, rest) = step_delta(zero, Point { x: half - 1, y: 1 - half }, zero);
    assert_eq!(d, Delta { x: 0, y: 0 });
    assert_eq!(rest, Point { x: half - 1, y: 1 - half });
}

#[test]
fn large_moves_are_clamped_and_owed() {
    let zero = Point { x: 0, y: 0 };
    let far = Point { x: 300 * UNIT, y: -300 * UNIT };
    let (d, rest) = step_delta(zero, far, zero);
    assert_eq!(d, Delta { x: 127, y: -127 });
    assert_eq!(rest, Point { x: 173 * UNIT, y: -173 * UNIT });
    let (d, rest) = step_delta(far, far, rest);
    assert_eq!(d, Delta { x: 127, y: -127 });
    assert_eq!(rest, Point { x: 46 * UNIT, y: -46 * UNIT });
}

#[test]
fn jiggle_goes_one_pixel_and_back() {
    for (die, there, back) in [
        (0, Delta { x: 1, y: 0 }, Delta { x: -1, y: 0 }),
        (254, Delta { x: 1, y: 0 }, Delta { x: -1, y: 0 }),
        (1, Delta { x: 0, y: 1 }, Delta { x: 0, y: -1 }),
        (255, Delta { x: 0, y: 1 }, Delta { x: 0, y: -1 }),
    ] {
        assert_eq!(
            jiggle_pair(die),
            [MouseStep::Move(there), MouseStep::Wait(25_000), MouseStep::Move(back)]
        );
    }
}

#[test]
fn mouse_report_presses_nothing() {
    let r = mouse_report(Delta { x: -3, y: 4 });
    assert_eq!((r.buttons, r.x, r.y, r.wheel, r.pan), (0, -3, 4, 0, 0));
}

#[test]
fn animations_have_their_frames_and_reports() {
    assert_eq!(Animation::WakeShake.frames(), 80);
    assert_eq!(Animation::Spinner.frames(), 75);
    assert_eq!(Animation::FinalSpiral.frames(), 625);
    assert_eq!(Animation::Warning5.frames(), 312);
    assert_eq!(Animation::Warning10.frames(), 187);
    assert_eq!(Animation::WakeShake.report(), None);
    assert_eq!(Animation::Spinner.report(), Some(Ev::SpinDone));
    assert_eq!(Animation::FinalSpiral.report(), Some(Ev::SpiralDone));
    assert_eq!(Animation::Warning5.report(), Some(Ev::WarnDone));
    assert_eq!(Animation::Warning10.report(), Some(Ev::WarnDone));
}

#[test]
fn activities_draw_their_animations() {
    assert_eq!(Animation::of(During::AnimateSpinner), Some(Animation::Spinner));
    assert_eq!(Animation::of(During::AnimateWarning5), Some(Animation::Warning5));
    assert_eq!(Animation::of(During::AnimateWarning10), Some(Animation::Warning10));
    assert_eq!(Animation::of(During::AnimateFinalSpiral), Some(Animation::FinalSpiral));
    assert_eq!(Animation::of(During::BlinkFastRed), None);
}

#[test]
fn shake_sends_and_rests_on_every_frame() {
    let mut stroke = Stroke::new();
    let (mut moves, mut waited) = (0, 0);
    loop {
        let w = wave(Animation::WakeShake, stroke.frame, 0);
        match mouse_wake(&mut stroke, WakeEvent::StepDone, w) {
            MouseStep::Move(_) => moves += 1,
            MouseStep::Wait(t) => waited += t,
            MouseStep::Done => break,
        }
    }
    assert_eq!((moves, waited), (80, 640_000));
}

#[test]
fn shake_stops_at_its_deadline() {
    let mut stroke = Stroke::new();
    let w = wave(Animation::WakeShake, 0, 0);
    assert!(matches!(mouse_wake(&mut stroke, WakeEvent::StepDone, w), MouseStep::Move(_)));
    let before = stroke;
    assert_eq!(mouse_wake(&mut stroke, WakeEvent::Deadline, w), MouseStep::Done);
    assert_eq!(stroke, before);
}

#[test]
fn spirals_of_any_size_match_single_precision() {
    for (start, end, turns, frames) in [(100u16, 7u16, 4u32, 90u32), (10, 25, 1, 33), (5, 5, 2, 1)] {
        let shape = Shape::Spiral { radius_start: start, radius_end: end, turns };
        let mut stroke = Stroke::new();
        let (mut px, mut py, mut ax, mut ay) = (0.0f32, 0.0f32, 0.0f32, 0.0f32);
        let mut moves = 0;
        loop {
            let f = stroke.frame;
            assert_eq!(shape.phase(frames, f), Phase::Eased { part: f, whole: frames, turns });
            let u = powf((f as f32) / (frames as f32), 2.5);
            let angle = u * 2.0 * PI * turns as f32;
            let w = Wave { sin: parts(sinf(angle)), cos: parts(cosf(angle)), ease: parts(u), die: 0 };
            match shape.step(frames, &mut stroke, w) {
                MouseStep::Move(d) => {
                    let radius = start as f32 + (end as f32 - start as f32) * u;
                    let (nx, ny) = (radius * cosf(angle) - start as f32, radius * sinf(angle));
                    let (want_x, want_y) = ((nx - px) + ax, (ny - py) + ay);
                    let dx = roundf(want_x.clamp(-127.0, 127.0)) as i8;
                    let dy = roundf(want_y.clamp(-127.0, 127.0)) as i8;
                    assert_eq!(d, Delta { x: dx, y: dy });
                    (ax, ay) = (want_x - dx as f32, want_y - dy as f32);
                    (px, py) = (nx, ny);
                    moves += 1;
                }
                MouseStep::Wait(t) => assert_eq!(t, 8_000),
                MouseStep::Done => break,
            }
        }
        assert_eq!(moves, frames);
    }
}

#[test]
fn a_drawing_without_frames_is_done_at_once() {
    let mut stroke = Stroke::new();
    let shape = Shape::Spiral { radius_start: 80, radius_end: 2, turns: 5 };
    let w = Wave { sin: 0, cos: UNIT, ease: 0, die: 0 };
    assert_eq!(shape.step(0, &mut stroke, w), MouseStep::Done);
    assert_eq!(stroke, Stroke::new());
}
