use jiggly::config::Knobs;
use jiggly::tuning::{
    day_draws, objective_totals, objectives, press_probability, roll_hits, sample_triangular, simulate_one,
    simulate_rolls, unit_numerator, Day, DayOutcome, Goal, JigglyTuning, Totals,
};
use rand::rngs::StdRng;
use rand::{Rng, SeedableRng};

/// A day with the dice thrown as floating-point numbers.
fn float_day(s: i32, e: i32, seed: u64, k: &Knobs) -> DayOutcome {
    let mut rng = StdRng::seed_from_u64(seed);
    let mut expire = s + k.rt;
    let mut o = DayOutcome { presses: 1, slept_work: 0, slept_lunch: 0, after_hours: 0 };
    let t_max = e.max(expire).max(s + 2 * k.rt) + 1;
    let mut prev_running = true;
    for t in s..t_max {
        if t == 780 && t < e {
            expire = t + k.rt;
            o.presses += 1;
        }
        let in_workday = t >= s && t < e;
        let at_lunch = (720..780).contains(&t);
        let running = t < expire;
        if prev_running && !running && in_workday && !at_lunch {
            expire = t + k.rt;
            o.presses += 1;
            prev_running = true;
            continue;
        }
        prev_running = running;
        if !running && in_workday {
            if at_lunch {
                o.slept_lunch += 1;
            } else {
                o.slept_work += 1;
            }
        }
        if t >= e && running {
            o.after_hours += 1;
        }
        if !at_lunch && in_workday && running {
            let remaining = expire - t;
            let mut p = 0.0;
            if remaining > k.ra && remaining <= k.ya {
                p = 0.015;
            } else if remaining > k.fra && remaining <= k.ra {
                p = 0.040;
            } else if remaining > 0 && remaining <= k.fra {
                p = 0.060;
            }
            if remaining == 10 {
                p += 0.04;
            }
            if remaining == 5 {
                p += 0.03;
            }
            let roll: f64 = rng.random();
            if roll < p {
                expire = t + k.rt;
                o.presses += 1;
            }
        }
    }
    o
}

/// A triangular sample in floating point.
fn float_triangular(low: f64, mode: f64, high: f64, u: f64) -> f64 {
    let c = (mode - low) / (high - low);
    if u < c {
        low + ((high - low) * (mode - low) * u).sqrt()
    } else {
        high - ((high - low) * (high - mode) * (1.0 - u)).sqrt()
    }
}

fn sampled(n: usize) -> JigglyTuning {
    JigglyTuning::new(n, 99)
}

#[test]
fn days_are_sampled_as_in_floating_point() {
    for seed in [2026, 0, 7, u64::MAX] {
        let mut rng = StdRng::seed_from_u64(seed);
        let problem = JigglyTuning::new(5000, seed);
        assert_eq!(problem.days.len(), 5000);
        for d in &problem.days {
            let u: f64 = rng.random();
            let start = (float_triangular(8.0, 8.5, 9.5, u) * 60.0) as i32;
            let u: f64 = rng.random();
            let end = (float_triangular(16.0, 17.5, 19.0, u) * 60.0) as i32;
            let day_seed: u64 = rng.random();
            assert_eq!(*d, Day { start, end, seed: day_seed });
        }
    }
}

#[test]
fn more_days_only_append() {
    let few = JigglyTuning::new(40, 2026);
    let many = JigglyTuning::new(100, 2026);
    assert_eq!(few.days[..], many.days[..40]);
    assert_eq!(JigglyTuning::new(0, 2026).days, vec![]);
    assert_ne!(few.days, JigglyTuning::new(40, 2027).days);
}

#[test]
fn samples_have_their_extremes() {
    assert_eq!(sample_triangular(480, 510, 570, 0), 480);
    assert_eq!(sample_triangular(480, 510, 570, u64::MAX), 569);
    assert_eq!(sample_triangular(0, 10, 10, u64::MAX), 9);
    assert_eq!(sample_triangular(0, 0, 10, 0), 0);
    // Half of the ends come before the mode, and an eighth of them in the first
    // half of the time before it.
    assert_eq!(sample_triangular(960, 1050, 1140, 1 << 63), 1050);
    assert_eq!(sample_triangular(960, 1050, 1140, 1 << 61), 1005);
}

#[test]
fn samples_grow_with_the_draw() {
    let mut last = 480;
    for i in 0..2000u64 {
        let m = sample_triangular(480, 510, 570, i * 9_000_000_000_000_000);
        assert!(m >= last && m <= 570);
        last = m;
    }
    assert!(last > 550);
}

#[test]
fn days_match_floating_point_dice() {
    let choices = [
        Knobs::shipping(),
        Knobs::four_hours(),
        Knobs { rt: 60, ya: 55, ra: 40, fra: 20 },
        Knobs { rt: 12, ya: 11, ra: 10, fra: 5 },
        Knobs { rt: 3, ya: 2, ra: 1, fra: 1 },
        Knobs { rt: 0, ya: 2, ra: 1, fra: 1 },
        Knobs { rt: -5, ya: 2, ra: 1, fra: -1 },
        Knobs { rt: 100, ya: 5, ra: 30, fra: 60 },
    ];
    for d in &sampled(300).days {
        for k in &choices {
            assert_eq!(
                simulate_one(d.start, d.end, d.seed, k),
                float_day(d.start, d.end, d.seed, k)
            );
        }
    }
}

#[test]
fn draws_are_the_standard_generators() {
    let mut rng = StdRng::seed_from_u64(2026);
    let draws = day_draws(50, 2026);
    assert_eq!(draws.len(), 50);
    for d in &draws {
        let want: (u64, u64, u64) = (rng.random(), rng.random(), rng.random());
        assert_eq!(*d, want);
    }
    assert_ne!(draws[0], (2026, 2026, 2026));
    assert_ne!(day_draws(1, 2026), day_draws(1, 2027));
    assert_eq!(day_draws(0, 1), vec![]);
}

#[test]
fn fractions_are_the_upper_53_bits() {
    let mut ints = StdRng::seed_from_u64(5);
    let mut floats = StdRng::seed_from_u64(5);
    for _ in 0..1000 {
        let draw: u64 = ints.random();
        let roll: f64 = floats.random();
        assert_eq!(unit_numerator(draw) as f64 / 9_007_199_254_740_992.0, roll);
    }
    assert_eq!(unit_numerator(u64::MAX), (1 << 53) - 1);
    assert_eq!(unit_numerator(2047), 0);
    assert_eq!(unit_numerator(2048), 1);
}

#[test]
fn dice_hit_at_the_floating_point_boundary() {
    let chances: [(u64, f64); 12] = [
        (0, 0.0),
        (15, 0.015),
        (40, 0.040),
        (60, 0.060),
        (40, 0.0 + 0.04),
        (30, 0.0 + 0.03),
        (55, 0.015 + 0.04),
        (45, 0.015 + 0.03),
        (80, 0.040 + 0.04),
        (70, 0.040 + 0.03),
        (100, 0.060 + 0.04),
        (90, 0.060 + 0.03),
    ];
    for (chance, p) in chances {
        let edge = (p * 9_007_199_254_740_992.0) as u64;
        for n in edge.saturating_sub(4)..edge + 5 {
            let roll = n as f64 / 9_007_199_254_740_992.0;
            assert_eq!(roll_hits(n << 11, chance), roll < p);
        }
    }
}

#[test]
fn chances_follow_the_led() {
    let k = Knobs::shipping();
    assert_eq!(press_probability(&k, 23), 0);
    assert_eq!(press_probability(&k, 22), 15);
    assert_eq!(press_probability(&k, 12), 15);
    assert_eq!(press_probability(&k, 11), 40);
    assert_eq!(press_probability(&k, 10), 80);
    assert_eq!(press_probability(&k, 5), 70);
    assert_eq!(press_probability(&k, 4), 60);
    assert_eq!(press_probability(&k, 0), 0);
    assert_eq!(press_probability(&k, -5), 0);
}

#[test]
fn a_day_without_reactions() {
    // 8:30 to 17:30 with a four-hour cycle and a user who never reacts: dead at
    // 12:30, restarted at 13:00, dead at 17:00 and restarted again. The minute
    // after work is the last one counted.
    let never = vec![u64::MAX; 540];
    let o = simulate_rolls(510, 1050, &Knobs::four_hours(), &never);
    assert_eq!(o, DayOutcome { presses: 3, slept_work: 0, slept_lunch: 30, after_hours: 1 });
}

#[test]
fn after_hours_run_to_the_cycles_end() {
    // The device restarted at 17:00 would run to 21:00, but two cycles from the
    // start are over, and the count ends a minute after work.
    let never = vec![u64::MAX; 525];
    let o = simulate_rolls(510, 1035, &Knobs::four_hours(), &never);
    assert_eq!((o.presses, o.after_hours), (3, 1));
    let long = Knobs { rt: 300, ya: 30, ra: 25, fra: 20 };
    let o = simulate_rolls(510, 1035, &long, &never);
    assert_eq!(o, DayOutcome { presses: 2, slept_work: 0, slept_lunch: 0, after_hours: 45 });
}

#[test]
fn work_sleep_is_always_answered() {
    for d in &sampled(100).days {
        let k = Knobs { rt: 7, ya: 3, ra: 2, fra: 1 };
        assert_eq!(simulate_one(d.start, d.end, d.seed, &k).slept_work, 0);
        let k = Knobs::shipping();
        let o = simulate_one(d.start, d.end, d.seed, &k);
        assert!(o.slept_lunch <= 60 && o.presses >= 1 && o.after_hours <= 231);
    }
}

#[test]
fn a_device_that_cannot_run_presses_every_minute() {
    let o = simulate_rolls(480, 490, &Knobs { rt: 0, ya: 3, ra: 2, fra: 1 }, &vec![0; 10]);
    assert_eq!(o, float_day(480, 490, 0, &Knobs { rt: 0, ya: 3, ra: 2, fra: 1 }));
    assert_eq!(o.presses, 11);
}

#[test]
fn totals_add_up_over_days() {
    let problem = sampled(200);
    let k = Knobs::shipping();
    let t = problem.aggregate(&k);
    let (mut sweet, mut lunch, mut work, mut presses, mut after) = (0u64, 0u128, 0u128, 0u128, 0u128);
    for d in &problem.days {
        let o = float_day(d.start, d.end, d.seed, &k);
        if (15..=45).contains(&o.slept_lunch) {
            sweet += 1;
        }
        lunch += o.slept_lunch as u128;
        work += o.slept_work as u128;
        presses += o.presses as u128;
        after += o.after_hours as u128;
    }
    assert_eq!((t.days, t.sweet), (200, sweet));
    assert_eq!((t.lunch, t.work, t.presses, t.after), (lunch, work, presses, after));
    assert!(t.sweet > 0 && t.lunch > 0 && t.presses > 400);
}

#[test]
fn violation_counts_minutes_out_of_order() {
    let problem = sampled(2);
    assert_eq!(problem.evaluate(&Knobs::shipping()).violation, 0);
    assert_eq!(problem.evaluate(&Knobs { rt: 231, ya: 10, ra: 12, fra: 4 }).violation, 3);
    assert_eq!(problem.evaluate(&Knobs { rt: 231, ya: 22, ra: 4, fra: 4 }).violation, 1);
    assert_eq!(problem.evaluate(&Knobs { rt: 231, ya: 22, ra: 11, fra: -2 }).violation, 3);
    assert_eq!(problem.evaluate(&Knobs { rt: 231, ya: 0, ra: 0, fra: 0 }).violation, 3);
    let k = Knobs::four_hours();
    assert_eq!(problem.evaluate(&k).totals, problem.aggregate(&k));
}

#[test]
fn objectives_are_in_order() {
    assert_eq!(
        objectives(),
        [
            ("work_failure_min", Goal::Minimize),
            ("lunch_sleep_min", Goal::Maximize),
            ("presses_per_day", Goal::Minimize),
            ("after_hours_min", Goal::Minimize),
        ]
    );
}

#[test]
fn totals_come_in_the_order_of_the_objectives() {
    let t = Totals { days: 9, sweet: 8, lunch: 2, work: 1, presses: 3, after: 4 };
    assert_eq!(objective_totals(&t), [1, 2, 3, 4]);
}
