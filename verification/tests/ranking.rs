use jiggly::config::Knobs;
use jiggly::rank::{
    balance_score_for, best_by, compute_weighted_scores, dedupe, front_rows, norm_max, norm_min,
    place_of, press_score, press_zone, rank_by_lunch, rank_descending, recommend, row_for,
    sort_by_lunch, PressZone, Row,
};
use jiggly::text::{fmt_minutes, fmt_rt, mean_minutes};
use jiggly::tuning::{day_draws, Day, JigglyTuning, Totals};

fn totals(lunch: u128, work: u128, presses: u128, after: u128) -> Totals {
    Totals { days: 1000, sweet: 0, lunch, work, presses, after }
}

fn row(ya: i32, ra: i32, fra: i32, t: Totals) -> Row {
    row_for(&Knobs { rt: 231, ya, ra, fra }, &t)
}

/// The weighted scores in floating point.
fn float_scores(rows: &Vec<Row>) -> Vec<f64> {
    let mean = |x: u128, r: &Row| x as f64 / r.totals.days as f64;
    let lo = |f: fn(&Row) -> u128| rows.iter().map(|r| mean(f(r), r)).fold(f64::INFINITY, f64::min);
    let hi =
        |f: fn(&Row) -> u128| rows.iter().map(|r| mean(f(r), r)).fold(f64::NEG_INFINITY, f64::max);
    let up = |v: f64, lo: f64, hi: f64| if hi - lo < 1e-12 { 1.0 } else { (v - lo) / (hi - lo) };
    let down = |v: f64, lo: f64, hi: f64| if hi - lo < 1e-12 { 1.0 } else { (hi - v) / (hi - lo) };
    let work: fn(&Row) -> u128 = |r| r.totals.work;
    let lunch: fn(&Row) -> u128 = |r| r.totals.lunch;
    let after: fn(&Row) -> u128 = |r| r.totals.after;
    rows.iter()
        .map(|r| {
            let presses = mean(r.totals.presses, r);
            if presses > 3.5 {
                return f64::NEG_INFINITY;
            }
            let press = if presses <= 2.5 { 1.0 } else { (3.5 - presses).clamp(0.0, 1.0) };
            let widths = ((r.knobs.ya - r.knobs.ra) as f64).min((r.knobs.ra - r.knobs.fra) as f64);
            0.30 * up(mean(lunch(r), r), lo(lunch), hi(lunch))
                + 0.25 * down(mean(after(r), r), lo(after), hi(after))
                + 0.20 * down(mean(work(r), r), lo(work), hi(work))
                + 0.15 * press
                + 0.10 * (widths.max(0.0) / 10.0).clamp(0.0, 1.0)
        })
        .collect()
}

fn sample_rows() -> Vec<Row> {
    vec![
        row(22, 11, 4, totals(24_310, 0, 2_512, 31_007)),
        row(30, 25, 20, totals(31_002, 17, 2_499, 40_211)),
        row(60, 30, 10, totals(9_876, 3, 3_499, 52_000)),
        row(60, 30, 10, totals(40_000, 3, 3_501, 20_000)),
        row(12, 14, 15, totals(28_000, 5, 3_500, 33_333)),
    ]
}

#[test]
fn scores_match_floating_point() {
    let rows = sample_rows();
    let scores = compute_weighted_scores(&rows);
    let want = float_scores(&rows);
    assert_eq!(scores.nums.len(), rows.len());
    for i in 0..rows.len() {
        match scores.nums[i] {
            None => assert_eq!(want[i], f64::NEG_INFINITY),
            Some(n) => assert!((n as f64 / scores.den as f64 - want[i]).abs() < 1e-12),
        }
    }
    assert_eq!(scores.nums[3], None);
}

#[test]
fn no_rows_have_no_scores() {
    let s = compute_weighted_scores(&vec![]);
    assert_eq!(s.nums, vec![]);
    assert!(s.den > 0);
}

#[test]
fn single_row_is_best_on_every_outcome() {
    let rows = vec![row(60, 30, 10, totals(10, 20, 2_500, 30))];
    let s = compute_weighted_scores(&rows);
    assert_eq!(s.nums, vec![Some(s.den)]);
    assert_eq!(s.den, 100 * 2000 * 10);
}

#[test]
fn scores_stay_between_zero_and_one_and_respect_dominance() {
    let mut rows = sample_rows();
    rows.push(row(60, 40, 20, totals(40_001, 0, 2_000, 19_999)));
    let s = compute_weighted_scores(&rows);
    for n in &s.nums {
        if let Some(n) = n {
            assert!(*n <= s.den);
        }
    }
    assert_eq!(s.nums[5], Some(s.den));
}

#[test]
fn presses_fall_into_their_zones() {
    assert_eq!(press_zone(2_500, 1000), PressZone::Free);
    assert_eq!(press_zone(2_501, 1000), PressZone::Ramp);
    assert_eq!(press_zone(3_499, 1000), PressZone::Ramp);
    assert_eq!(press_zone(3_500, 1000), PressZone::AtCap);
    assert_eq!(press_zone(3_501, 1000), PressZone::Rejected);
    assert_eq!(press_score(0, 1000), Some((2000, 2000)));
    assert_eq!(press_score(3_000, 1000), Some((1000, 2000)));
    assert_eq!(press_score(3_500, 1000), Some((0, 2000)));
    assert_eq!(press_score(3_501, 1000), None);
}

#[test]
fn balance_is_the_shorter_phase() {
    assert_eq!(balance_score_for(&Knobs::shipping()), 7);
    assert_eq!(balance_score_for(&Knobs::four_hours()), 5);
    assert_eq!(balance_score_for(&Knobs { rt: 0, ya: 60, ra: 30, fra: 10 }), 10);
    assert_eq!(balance_score_for(&Knobs { rt: 0, ya: 10, ra: 30, fra: 10 }), 0);
}

#[test]
fn normalisation_goes_from_worst_to_best() {
    assert_eq!(norm_min(3, 1, 9, 1000), (6, 8));
    assert_eq!(norm_max(3, 1, 9, 1000), (2, 8));
    assert_eq!(norm_min(4, 4, 4, 1000), (1, 1));
    assert_eq!(norm_max(4, 4, 4, 1000), (1, 1));
    assert_eq!(norm_max(0, 0, u128::MAX, 1), (0, u128::MAX));
}

#[test]
fn means_that_hardly_differ_are_all_best() {
    let days = 2_000_000_000_000;
    assert_eq!(norm_min(1, 0, 1, days), (1, 1));
    assert_eq!(norm_max(0, 0, 1, days), (1, 1));
    // Two parts in two million million are a difference.
    assert_eq!(norm_max(0, 0, 2, days), (0, 2));
    assert_eq!(norm_min(1, 0, 1, 1_000_000_000_000), (0, 1));
    assert_eq!(norm_min(1, 0, 1, 1_000_000_000_001), (1, 1));

    let over = |lunch: u128| {
        row(22, 11, 4, Totals { days, sweet: 0, lunch, work: 0, presses: 0, after: 0 })
    };
    let rows = vec![over(0), over(1)];
    let s = compute_weighted_scores(&rows);
    for (n, want) in s.nums.iter().zip(float_scores(&rows)) {
        assert_eq!(n.unwrap() * 100, s.den * 97);
        assert!((want - 0.97).abs() < 1e-12);
    }
}

#[test]
fn ranking_is_stable_and_puts_rejected_last() {
    let keys = vec![Some(3), None, Some(7), Some(3), None, Some(9)];
    assert_eq!(rank_descending(&keys), vec![5, 2, 0, 3, 1, 4]);
    assert_eq!(rank_descending(&vec![]), vec![]);
}

#[test]
fn rows_rank_by_lunch() {
    assert_eq!(rank_by_lunch(&sample_rows()), vec![3, 1, 4, 0, 2]);
}

#[test]
fn rows_sort_by_lunch() {
    let rows = sample_rows();
    let sorted = sort_by_lunch(&rows);
    assert_eq!(sorted, vec![rows[3], rows[1], rows[4], rows[0], rows[2]]);
    let twins = vec![rows[0], row(9, 5, 2, rows[0].totals)];
    assert_eq!(sort_by_lunch(&twins), twins);
}

#[test]
fn the_pick_is_the_best_candidate() {
    let rows = sample_rows();
    let shipping = row(22, 11, 4, totals(25_000, 0, 2_600, 30_000));
    let pick = recommend(&rows, &shipping);
    let mut all = rows.clone();
    all.push(shipping);
    let want = float_scores(&all);
    assert_eq!(pick.candidates, all);
    assert_eq!(pick.order.len(), 6);
    for w in pick.order.windows(2) {
        assert!(want[w[0]] >= want[w[1]]);
    }
    assert_eq!(pick.top, pick.order[0]);
    assert_eq!(pick.order[pick.shipping_place - 1], 5);
    assert_eq!(*pick.order.last().unwrap(), 3);
    assert_eq!(pick.most_work, 17);
}

#[test]
fn shipping_alone_is_its_own_pick() {
    let shipping = row(22, 11, 4, totals(1, 2, 9_000, 3));
    let pick = recommend(&vec![], &shipping);
    assert_eq!((pick.top, pick.shipping_place), (0, 1));
    assert_eq!(pick.scores.nums, vec![None]);
}

#[test]
fn places_count_from_one() {
    let order = vec![4, 2, 0];
    assert_eq!(place_of(&order, 4), 1);
    assert_eq!(place_of(&order, 0), 3);
    assert_eq!(place_of(&order, 9), 0);
}

#[test]
fn best_is_the_first_of_the_best() {
    let keys = vec![5, 3, 9, 3, 9];
    assert_eq!(best_by(&keys, false), Some(1));
    assert_eq!(best_by(&keys, true), Some(2));
    assert_eq!(best_by(&vec![], true), None);
}

#[test]
fn front_is_deduplicated_and_feasible() {
    let a = Knobs::shipping();
    let b = Knobs::four_hours();
    let bad = Knobs { rt: 231, ya: 5, ra: 9, fra: 2 };
    let front = vec![a, bad, b, a, bad, b];
    assert_eq!(dedupe(&front), vec![a, bad, b]);
    let days: Vec<Day> =
        day_draws(20, 3).iter().map(|d| Day { start: 510, end: 1050, seed: d.2 }).collect();
    let problem = JigglyTuning { days };
    let rows = front_rows(&problem, &front);
    assert_eq!(rows.len(), 2);
    assert_eq!(rows[0], row_for(&a, &problem.aggregate(&a)));
    assert_eq!(rows[1], row_for(&b, &problem.aggregate(&b)));
}

#[test]
fn run_times_print_hours_and_minutes() {
    for m in [0, 5, 59, 60, 231, 240, 6000, i32::MAX] {
        assert_eq!(fmt_rt(m), format!("{}h{:02}m", m / 60, m % 60));
    }
    assert_eq!(fmt_rt(231), "3h51m");
    assert_eq!(fmt_rt(240), "4h00m");
    for m in [-1, -59, -60, -61, -125, i32::MIN] {
        assert_eq!(fmt_rt(m), format!("{}h{:02}m", m / 60, m % 60));
    }
}

#[test]
fn minutes_print_without_empty_hours() {
    assert_eq!(fmt_minutes(0), "0m");
    assert_eq!(fmt_minutes(45), "45m");
    assert_eq!(fmt_minutes(60), "1h00m");
    assert_eq!(fmt_minutes(125), "2h05m");
    assert_eq!(fmt_minutes(-5), "-5m");
    assert_eq!(fmt_minutes(-65), "-5m");
}

#[test]
fn means_round_half_up() {
    assert_eq!(mean_minutes(24_499, 1000), 24);
    assert_eq!(mean_minutes(24_500, 1000), 25);
    assert_eq!(mean_minutes(24_501, 1000), 25);
    assert_eq!(mean_minutes(0, 7), 0);
    for total in 0..2000u128 {
        assert_eq!(mean_minutes(total, 64), (total as f64 / 64.0).round() as i32);
    }
}
