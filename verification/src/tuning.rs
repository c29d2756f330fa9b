//! The workday model: minute by minute, what a device with given knobs does to
//! its user's day, and the totals over many days.
use vstd::prelude::*;

use crate::config::Knobs;
use crate::rng::std_rng_draws;

verus! {

/// Lunch starts at 12:00. Times of day are minutes after midnight.
pub const LUNCH_START: i32 = 720;

/// Lunch ends at 13:00.
pub const LUNCH_END: i32 = 780;

// Chances, in thousandths, that the user presses the button in a minute.
pub const P_PRESS_YELLOW: u64 = 15;

pub const P_PRESS_RED: u64 = 40;

pub const P_PRESS_FAST_RED: u64 = 60;

/// Added in the minute of the first warning spiral.
pub const P_WARN10_BUMP: u64 = 40;

/// Added in the minute of the second warning spiral.
pub const P_WARN5_BUMP: u64 = 30;

/// What one simulated day came to.
#[derive(Debug, Clone, Copy, PartialEq, Eq, Structural)]
pub struct DayOutcome {
    /// Button presses.
    pub presses: u32,
    /// Minutes the screen slept while the user was working.
    pub slept_work: u32,
    /// Minutes the screen slept over lunch.
    pub slept_lunch: u32,
    /// Minutes the device ran after the workday.
    pub after_hours: u32,
}

/// Where a simulated day stands at the start of a minute.
pub struct Sim {
    /// When the device expires.
    pub expire: int,
    /// Whether the device ran in the minute before.
    pub prev_running: bool,
    /// How many dice were rolled.
    pub draws: nat,
    pub presses: nat,
    pub slept_work: nat,
    pub slept_lunch: nat,
    pub after_hours: nat,
}

/// The chance, in thousandths, that the user presses with `remaining` minutes
/// to go.
pub open spec fn press_chance(k: Knobs, remaining: int) -> int {
    let phase = if k.ra < remaining <= k.ya {
        P_PRESS_YELLOW as int
    } else if k.fra < remaining <= k.ra {
        P_PRESS_RED as int
    } else if 0 < remaining <= k.fra {
        P_PRESS_FAST_RED as int
    } else {
        0
    };
    let warn10 = if remaining == 10 {
        P_WARN10_BUMP as int
    } else {
        0
    };
    let warn5 = if remaining == 5 {
        P_WARN5_BUMP as int
    } else {
        0
    };
    phase + warn10 + warn5
}

/// A random number read as a fraction: its upper 53 bits over 2^53.
pub open spec fn numerator(draw: u64) -> int {
    draw as int / 2048
}

/// The user presses when the die's fraction is below the chance.
pub open spec fn die_hits(draw: u64, chance: int) -> bool {
    numerator(draw) * 1000 < chance * 0x20_0000_0000_0000
}

/// Whether `t` is in the lunch hour.
pub open spec fn at_lunch(t: int) -> bool {
    LUNCH_START <= t < LUNCH_END
}

/// The user starts the device at the beginning of the workday.
pub open spec fn sim_start(s: int, rt: int) -> Sim {
    Sim {
        expire: s + rt,
        prev_running: true,
        draws: 0,
        presses: 1,
        slept_work: 0,
        slept_lunch: 0,
        after_hours: 0,
    }
}

/// A press: the device runs for another `rt` minutes from `t`.
pub open spec fn press(m: Sim, t: int, rt: int) -> Sim {
    Sim { expire: t + rt, presses: m.presses + 1, ..m }
}

/// Minute `t` of a workday that ends at `e`.
pub open spec fn sim_minute(m: Sim, t: int, e: int, k: Knobs, rolls: Seq<u64>) -> Sim {
    // Back from lunch, the user starts the second cycle.
    let m1 = if t == LUNCH_END && t < e {
        press(m, t, k.rt as int)
    } else {
        m
    };
    let running = t < m1.expire;
    if m1.prev_running && !running && t < e && !at_lunch(t) {
        // The screen went to sleep on a working user, who restarts the device.
        Sim { prev_running: true, ..press(m1, t, k.rt as int) }
    } else {
        let m2 = Sim {
            prev_running: running,
            slept_lunch: m1.slept_lunch + if !running && t < e && at_lunch(t) {
                1nat
            } else {
                0nat
            },
            slept_work: m1.slept_work + if !running && t < e && !at_lunch(t) {
                1nat
            } else {
                0nat
            },
            after_hours: m1.after_hours + if running && t >= e {
                1nat
            } else {
                0nat
            },
            ..m1
        };
        if running && t < e && !at_lunch(t) {
            let m3 = Sim { draws: m2.draws + 1, ..m2 };
            if die_hits(rolls[m2.draws as int], press_chance(k, m2.expire - t)) {
                press(m3, t, k.rt as int)
            } else {
                m3
            }
        } else {
            m2
        }
    }
}

/// The day from `s` up to, and without, minute `t`.
pub open spec fn sim_until(s: int, e: int, k: Knobs, rolls: Seq<u64>, t: int) -> Sim
    decreases t - s,
{
    if t <= s {
        sim_start(s, k.rt as int)
    } else {
        sim_minute(sim_until(s, e, k, rolls, t - 1), t - 1, e, k, rolls)
    }
}

/// The first minute that is not simulated: past the workday and past two
/// cycles.
pub open spec fn sim_end(s: int, e: int, rt: int) -> int {
    let a = if e >= s + rt {
        e
    } else {
        s + rt
    };
    (if a >= s + 2 * rt {
        a
    } else {
        s + 2 * rt
    }) + 1
}

/// The days whose minutes and counts fit the machine's integers.
pub open spec fn sim_fits(s: i32, e: i32, rt: i32) -> bool {
    &&& i32::MIN <= 2 * rt <= i32::MAX
    &&& i32::MIN <= s + rt <= i32::MAX
    &&& i32::MIN <= s + 2 * rt <= i32::MAX
    &&& sim_end(s as int, e as int, rt as int) <= i32::MAX
    &&& e + rt <= i32::MAX
    &&& sim_end(s as int, e as int, rt as int) - s + 2 <= u32::MAX
    &&& (e - s) * 8 <= isize::MAX
}

/// `o` holds the counts of `m`.
pub open spec fn outcome_is(o: DayOutcome, m: Sim) -> bool {
    &&& o.presses == m.presses
    &&& o.slept_work == m.slept_work
    &&& o.slept_lunch == m.slept_lunch
    &&& o.after_hours == m.after_hours
}

/// What holds of a day at the start of minute `t`.
pub open spec fn sim_bounds(m: Sim, s: int, e: int, rt: int, t: int) -> bool {
    &&& m.presses >= 1
    &&& m.presses <= t - s + 1 + (if s <= LUNCH_END < t {
        1int
    } else {
        0int
    })
    &&& m.draws <= (if t < e {
        t - s
    } else if s < e {
        e - s
    } else {
        0int
    })
    &&& m.slept_work + m.slept_lunch <= (if t < e {
        t - s
    } else if s < e {
        e - s
    } else {
        0int
    })
    &&& m.slept_lunch <= (if t <= LUNCH_START {
        0int
    } else if t < LUNCH_END {
        t - LUNCH_START
    } else {
        60int
    })
    &&& m.after_hours <= (if t <= e {
        0int
    } else if s < e {
        t - e
    } else {
        t - s
    })
    &&& s <= e ==> m.after_hours <= (if t <= e || m.expire <= e {
        0int
    } else if t <= m.expire {
        t - e
    } else {
        m.expire - e
    })
    &&& rt > 0 ==> m.slept_work == 0
    &&& rt > 0 ==> m.prev_running || LUNCH_START < t <= LUNCH_END || t > e
    &&& m.expire == s + rt || exists|p: int| s <= p < e && p < t && m.expire == #[trigger] (p + rt)
}

/// The bounds hold in every minute of every day.
pub proof fn lemma_sim_bounds(s: int, e: int, k: Knobs, rolls: Seq<u64>, t: int)
    requires
        s <= t,
    ensures
        sim_bounds(sim_until(s, e, k, rolls, t), s, e, k.rt as int, t),
    decreases t - s,
{
    if t > s {
        lemma_sim_bounds(s, e, k, rolls, t - 1);
        let m = sim_until(s, e, k, rolls, t - 1);
        let n = sim_until(s, e, k, rolls, t);
        assert(n == sim_minute(m, t - 1, e, k, rolls));
        if n.expire != m.expire {
            let p = t - 1;
            assert(s <= p < e && p < t && n.expire == p + k.rt);
        }
    }
}

/// The numerator, over 2^53, of the fraction in [0, 1) that a random number
/// stands for.
pub fn unit_numerator(draw: u64) -> (r: u64)
    ensures
        r == numerator(draw),
        r < 0x20_0000_0000_0000,
{
    assert(draw >> 11 == draw / 2048) by (bit_vector);
    draw >> 11
}

/// Whether a die falls below a chance given in thousandths.
pub fn roll_hits(draw: u64, chance: u64) -> (r: bool)
    requires
        chance <= 1000,
    ensures
        r == die_hits(draw, chance as int),
{
    unit_numerator(draw) * 1000 < chance * 0x20_0000_0000_0000
}

/// The chance of a press with `remaining` minutes to go.
pub fn press_probability(k: &Knobs, remaining: i32) -> (r: u64)
    ensures
        r == press_chance(*k, remaining as int),
        r <= 100,
{
    let mut p: u64 = 0;
    if remaining > k.ra && remaining <= k.ya {
        p = P_PRESS_YELLOW;
    } else if remaining > k.fra && remaining <= k.ra {
        p = P_PRESS_RED;
    } else if remaining > 0 && remaining <= k.fra {
        p = P_PRESS_FAST_RED;
    }
    if remaining == 10 {
        p = p + P_WARN10_BUMP;
    }
    if remaining == 5 {
        p = p + P_WARN5_BUMP;
    }
    p
}

/// Simulates one workday from `s` to `e` with the given dice, one per working
/// minute with the device running.
pub fn simulate_rolls(s: i32, e: i32, k: &Knobs, rolls: &Vec<u64>) -> (o: DayOutcome)
    requires
        sim_fits(s, e, k.rt),
        rolls@.len() >= e - s,
    ensures
        outcome_is(
            o,
            sim_until(
                s as int,
                e as int,
                *k,
                rolls@,
                sim_end(s as int, e as int, k.rt as int),
            ),
        ),
{
    let rt = k.rt;
    let mut expire: i32 = s + rt;
    let mut o = DayOutcome { presses: 1, slept_work: 0, slept_lunch: 0, after_hours: 0 };
    let mut t_max: i32 = e;
    if expire > t_max {
        t_max = expire;
    }
    if s + 2 * rt > t_max {
        t_max = s + 2 * rt;
    }
    t_max = t_max + 1;
    let mut prev_running = true;
    let mut used: usize = 0;
    let mut t: i32 = s;
    let ghost si = s as int;
    let ghost ei = e as int;
    while t < t_max
        invariant
            si == s,
            ei == e,
            rt == k.rt,
            sim_fits(s, e, rt),
            rolls@.len() >= e - s,
            t_max == sim_end(si, ei, rt as int),
            s <= t,
            t <= t_max || t == s,
            outcome_is(o, sim_until(si, ei, *k, rolls@, t as int)),
            expire == sim_until(si, ei, *k, rolls@, t as int).expire,
            prev_running == sim_until(si, ei, *k, rolls@, t as int).prev_running,
            used == sim_until(si, ei, *k, rolls@, t as int).draws,
        decreases t_max - t,
    {
        let ghost m = sim_until(si, ei, *k, rolls@, t as int);
        proof {
            lemma_sim_bounds(si, ei, *k, rolls@, t as int);
            lemma_sim_bounds(si, ei, *k, rolls@, t + 1);
            assert(sim_until(si, ei, *k, rolls@, t + 1) == sim_minute(m, t as int, ei, *k, rolls@));
        }
        if t == LUNCH_END && t < e {
            expire = t + rt;
            o.presses = o.presses + 1;
        }
        let in_workday = t >= s && t < e;
        let lunch = LUNCH_START <= t && t < LUNCH_END;
        let device_running = t < expire;
        if prev_running && !device_running && in_workday && !lunch {
            expire = t + rt;
            o.presses = o.presses + 1;
            prev_running = true;
        } else {
            prev_running = device_running;
            if !device_running && in_workday {
                if lunch {
                    o.slept_lunch = o.slept_lunch + 1;
                } else {
                    o.slept_work = o.slept_work + 1;
                }
            }
            if t >= e && device_running {
                o.after_hours = o.after_hours + 1;
            }
            if !lunch && in_workday && device_running {
                let remaining = expire - t;
                let p = press_probability(k, remaining);
                let roll = rolls[used];
                used = used + 1;
                if roll_hits(roll, p) {
                    expire = t + rt;
                    o.presses = o.presses + 1;
                }
            }
        }
        t = t + 1;
    }
    o
}

/// The dice of a day: the first random numbers under its seed, one per minute
/// of the workday.
pub open spec fn day_rolls(s: int, e: int, seed: u64) -> Seq<u64> {
    Seq::new(
        if e > s {
            (e - s) as nat
        } else {
            0
        },
        |i: int| crate::rng::std_rng_u64(seed, i as nat),
    )
}

/// The whole day under its own seed.
pub open spec fn day_result(s: int, e: int, seed: u64, k: Knobs) -> Sim {
    sim_until(s, e, k, day_rolls(s, e, seed), sim_end(s, e, k.rt as int))
}

/// Simulates one workday from `s` to `e` on the random numbers of `day_seed`.
pub fn simulate_one(s: i32, e: i32, day_seed: u64, k: &Knobs) -> (o: DayOutcome)
    requires
        sim_fits(s, e, k.rt),
    ensures
        outcome_is(o, day_result(s as int, e as int, day_seed, *k)),
{
    let n: usize = if e > s {
        (e as i64 - s as i64) as usize
    } else {
        0
    };
    let rolls = std_rng_draws(day_seed, n);
    assert(rolls@ =~= day_rolls(s as int, e as int, day_seed));
    simulate_rolls(s, e, k, &rolls)
}

/// While the device can run at all, a working user never sits through a
/// sleeping screen: each death at the desk is answered by a restart in that
/// same minute.
pub proof fn law_restart_covers_work(s: int, e: int, k: Knobs, rolls: Seq<u64>)
    requires
        k.rt > 0,
    ensures
        sim_until(s, e, k, rolls, sim_end(s, e, k.rt as int)).slept_work == 0,
{
    lemma_sim_bounds(s, e, k, rolls, sim_end(s, e, k.rt as int));
}

/// Every day counts at least the press that starts it, sleeps at most the
/// lunch hour over lunch, sleeps no more minutes than the workday has, and runs
/// on after the workday for no longer than one cycle.
pub proof fn law_day_is_bounded(s: int, e: int, k: Knobs, rolls: Seq<u64>)
    requires
        s <= e,
        k.rt >= 0,
    ensures
        ({
            let m = sim_until(s, e, k, rolls, sim_end(s, e, k.rt as int));
            &&& m.presses >= 1
            &&& m.slept_lunch <= 60
            &&& m.slept_work + m.slept_lunch <= e - s
            &&& m.after_hours <= k.rt
            &&& m.presses <= sim_end(s, e, k.rt as int) - s + 2
        }),
{
    lemma_sim_bounds(s, e, k, rolls, sim_end(s, e, k.rt as int));
}

/// No more than one extra cycle is simulated, however many presses a day sees.
pub proof fn law_simulation_is_capped(s: int, e: int, rt: int)
    requires
        rt >= 0,
    ensures
        sim_end(s, e, rt) == e + 1 || sim_end(s, e, rt) == s + 2 * rt + 1,
        sim_end(s, e, rt) > e,
        sim_end(s, e, rt) > s + 2 * rt,
{
}

/// A sampled workday.
#[derive(Debug, Clone, Copy, PartialEq, Eq, Structural)]
pub struct Day {
    /// Minute at which work starts.
    pub start: i32,
    /// Minute at which work ends.
    pub end: i32,
    /// Seed of the day's dice.
    pub seed: u64,
}

/// The lunch sleep, in minutes, that counts as the sweet spot.
pub const SWEET_LO: u32 = 15;

pub const SWEET_HI: u32 = 45;

/// Counts summed over days.
#[derive(Debug, Clone, Copy, PartialEq, Eq, Structural)]
pub struct Totals {
    /// How many days were summed.
    pub days: u64,
    /// How many of them slept through lunch for a sweet-spot time.
    pub sweet: u64,
    pub lunch: u128,
    pub work: u128,
    pub presses: u128,
    pub after: u128,
}

/// `Totals` before machine limits.
pub struct Sums {
    pub sweet: int,
    pub lunch: int,
    pub work: int,
    pub presses: int,
    pub after: int,
}

/// The sums over `days`.
pub open spec fn sums(days: Seq<Day>, k: Knobs) -> Sums
    decreases days.len(),
{
    if days.len() == 0 {
        Sums { sweet: 0, lunch: 0, work: 0, presses: 0, after: 0 }
    } else {
        let d = days.last();
        let m = day_result(d.start as int, d.end as int, d.seed, k);
        let t = sums(days.drop_last(), k);
        Sums {
            sweet: t.sweet + if SWEET_LO <= m.slept_lunch <= SWEET_HI {
                1int
            } else {
                0int
            },
            lunch: t.lunch + m.slept_lunch,
            work: t.work + m.slept_work,
            presses: t.presses + m.presses,
            after: t.after + m.after_hours,
        }
    }
}

/// `t` holds the sums over `days`.
pub open spec fn totals_are(t: Totals, days: Seq<Day>, k: Knobs) -> bool {
    let m = sums(days, k);
    &&& t.days == days.len()
    &&& t.sweet == m.sweet
    &&& t.lunch == m.lunch
    &&& t.work == m.work
    &&& t.presses == m.presses
    &&& t.after == m.after
}

/// Over any days, with a device that can run, no minute of work is slept
/// through, every day is started by a press, lunch sleep is at most an hour a
/// day, and no more days are sweet than there are.
pub proof fn law_totals_are_bounded(days: Seq<Day>, k: Knobs)
    requires
        k.rt > 0,
        forall|i: int| 0 <= i < days.len() ==> (#[trigger] days[i]).start <= days[i].end,
    ensures
        ({
            let m = sums(days, k);
            &&& m.work == 0
            &&& m.presses >= days.len()
            &&& 0 <= m.lunch <= 60 * days.len()
            &&& 0 <= m.sweet <= days.len()
            &&& 0 <= m.after <= k.rt * days.len()
        }),
    decreases days.len(),
{
    if days.len() > 0 {
        let d = days.last();
        assert(days[days.len() - 1] == d);
        assert forall|i: int| 0 <= i < days.drop_last().len() implies (
        #[trigger] days.drop_last()[i]).start <= days.drop_last()[i].end by {
            assert(days.drop_last()[i] == days[i]);
        }
        law_totals_are_bounded(days.drop_last(), k);
        let rolls = day_rolls(d.start as int, d.end as int, d.seed);
        law_day_is_bounded(d.start as int, d.end as int, k, rolls);
        law_restart_covers_work(d.start as int, d.end as int, k, rolls);
        let n = days.len() as int;
        assert(k.rt * n == k.rt * (n - 1) + k.rt) by (nonlinear_arith);
    }
}

/// What a choice of knobs scores: its totals, and by how much it breaks the
/// order of the LED phases.
#[derive(Debug, Clone, Copy, PartialEq, Eq, Structural)]
pub struct Evaluation {
    pub totals: Totals,
    pub violation: i64,
}

/// By how many minutes `k` breaks the order of the LED phases.
pub open spec fn violation_of(k: Knobs) -> int {
    (if k.ra >= k.ya {
        k.ra - k.ya + 1
    } else {
        0
    }) + (if k.fra >= k.ra {
        k.fra - k.ra + 1
    } else {
        0
    }) + (if k.fra <= 0 {
        1 - k.fra
    } else {
        0
    })
}

/// The knobs whose violation is free of overflow, term by term.
pub open spec fn violation_fits(k: Knobs) -> bool {
    &&& k.ra - k.ya + 1 <= i32::MAX
    &&& k.fra - k.ra + 1 <= i32::MAX
    &&& 1 - k.fra <= i32::MAX
}

/// Whether an objective is to be made small or large.
#[derive(Debug, Clone, Copy, PartialEq, Eq, Structural)]
pub enum Goal {
    Minimize,
    Maximize,
}

/// The four objectives, in the order in which totals are handed to a solver:
/// sleep at work, sleep over lunch, presses, and running after hours.
pub fn objectives() -> (r: [(&'static str, Goal); 4])
    ensures
        r@.len() == 4,
        r@[0].0@ == "work_failure_min"@ && r@[0].1 == Goal::Minimize,
        r@[1].0@ == "lunch_sleep_min"@ && r@[1].1 == Goal::Maximize,
        r@[2].0@ == "presses_per_day"@ && r@[2].1 == Goal::Minimize,
        r@[3].0@ == "after_hours_min"@ && r@[3].1 == Goal::Minimize,
{
    [
        ("work_failure_min", Goal::Minimize),
        ("lunch_sleep_min", Goal::Maximize),
        ("presses_per_day", Goal::Minimize),
        ("after_hours_min", Goal::Minimize),
    ]
}

/// What the objectives are computed from, in their order: the totals whose means
/// over the days a solver takes.
pub fn objective_totals(t: &Totals) -> (r: [u128; 4])
    ensures
        r@ == seq![t.work, t.lunch, t.presses, t.after],
{
    [t.work, t.lunch, t.presses, t.after]
}

/// The days that every choice of knobs is scored on.
#[derive(Debug)]
pub struct JigglyTuning {
    pub days: Vec<Day>,
}

impl JigglyTuning {
    /// Every day fits the machine's integers under a cycle of `rt` minutes.
    pub open spec fn fits(&self, rt: i32) -> bool {
        forall|i: int|
            0 <= i < self.days@.len() ==> sim_fits(
                (#[trigger] self.days@[i]).start,
                self.days@[i].end,
                rt,
            )
    }

    /// The totals of `k` over all days.
    pub fn aggregate(&self, k: &Knobs) -> (t: Totals)
        requires
            self.fits(k.rt),
        ensures
            totals_are(t, self.days@, *k),
    {
        let mut t = Totals { days: 0, sweet: 0, lunch: 0, work: 0, presses: 0, after: 0 };
        let mut i: usize = 0;
        assert(self.days@.take(0) =~= Seq::<Day>::empty());
        while i < self.days.len()
            invariant
                i <= self.days@.len(),
                self.fits(k.rt),
                totals_are(t, self.days@.take(i as int), *k),
                t.sweet <= i,
                t.lunch <= i * u32::MAX,
                t.work <= i * u32::MAX,
                t.presses <= i * u32::MAX,
                t.after <= i * u32::MAX,
            decreases self.days@.len() - i,
        {
            let d = self.days[i];
            let o = simulate_one(d.start, d.end, d.seed, k);
            proof {
                assert(self.days@.take(i + 1).drop_last() =~= self.days@.take(i as int));
                assert(self.days@.take(i + 1).last() == d);
                assert((i + 1) * u32::MAX == i * u32::MAX + u32::MAX) by (nonlinear_arith);
                assert(i * u32::MAX <= usize::MAX * u32::MAX) by (nonlinear_arith)
                    requires
                        i <= usize::MAX,
                ;
            }
            if SWEET_LO <= o.slept_lunch && o.slept_lunch <= SWEET_HI {
                t.sweet = t.sweet + 1;
            }
            t.lunch = t.lunch + o.slept_lunch as u128;
            t.work = t.work + o.slept_work as u128;
            t.presses = t.presses + o.presses as u128;
            t.after = t.after + o.after_hours as u128;
            t.days = t.days + 1;
            i = i + 1;
        }
        assert(self.days@.take(i as int) =~= self.days@);
        t
    }

    /// The totals of `k`, and how far `k` is from a valid order of LED phases.
    pub fn evaluate(&self, k: &Knobs) -> (r: Evaluation)
        requires
            self.fits(k.rt),
            violation_fits(*k),
        ensures
            totals_are(r.totals, self.days@, *k),
            r.violation == violation_of(*k),
            r.violation >= 0,
    {
        let mut violation: i64 = 0;
        if k.ra >= k.ya {
            violation = violation + (k.ra - k.ya + 1) as i64;
        }
        if k.fra >= k.ra {
            violation = violation + (k.fra - k.ra + 1) as i64;
        }
        if k.fra <= 0 {
            violation = violation + (1 - k.fra) as i64;
        }
        Evaluation { totals: self.aggregate(k), violation }
    }
}

/// The violation is zero exactly on knobs whose LED phases are in order.
pub proof fn law_violation_marks_infeasible(k: Knobs)
    ensures
        violation_of(k) >= 0,
        violation_of(k) == 0 <==> k.feasible(),
{
}

// ---------------------------------------------------------------------------
// Sampling the days.
// ---------------------------------------------------------------------------

/// The denominator of a random number read as a fraction: 2^53.
pub const DRAW_UNIT: u64 = 0x20_0000_0000_0000;

// The workday, in minutes after midnight: it starts between 8:00 and 9:30, most
// often at 8:30, and ends between 16:00 and 19:00, most often at 17:30.
pub const START_LOW: i32 = 480;

pub const START_MODE: i32 = 510;

pub const START_HIGH: i32 = 570;

pub const END_LOW: i32 = 960;

pub const END_MODE: i32 = 1050;

pub const END_HIGH: i32 = 1140;

/// `r` is the minute into which the quantile of the triangular distribution from
/// `low` over `mode` to `high` falls at `n / 2^53`. Below the mode that quantile
/// is `low + sqrt((high - low) (mode - low) u)`, above it
/// `high - sqrt((high - low) (high - mode) (1 - u))`.
pub open spec fn is_quantile(low: int, mode: int, high: int, n: int, r: int) -> bool {
    if n * (high - low) < (mode - low) * DRAW_UNIT {
        let reach = (high - low) * (mode - low) * n;
        &&& low <= r
        &&& (r - low) * (r - low) * DRAW_UNIT <= reach
        &&& reach < (r + 1 - low) * (r + 1 - low) * DRAW_UNIT
    } else {
        let rest = (high - low) * (high - mode) * (DRAW_UNIT - n);
        &&& r <= high
        &&& rest <= (high - r) * (high - r) * DRAW_UNIT
        &&& r < high ==> (high - r - 1) * (high - r - 1) * DRAW_UNIT < rest
    }
}

/// Squares grow.
proof fn lemma_squares(a: int, b: int)
    requires
        0 <= a,
        0 <= b,
    ensures
        a <= b ==> a * a <= b * b,
        a < b ==> a * a < b * b,
        a * a * DRAW_UNIT <= b * b * DRAW_UNIT ==> a <= b,
        a * a * DRAW_UNIT < b * b * DRAW_UNIT ==> a < b,
{
    if a <= b {
        assert(a * a <= b * b) by (nonlinear_arith)
            requires
                0 <= a <= b,
        ;
    }
    if b <= a {
        assert(b * b <= a * a) by (nonlinear_arith)
            requires
                0 <= b <= a,
        ;
    }
    if a < b {
        assert(a * a < b * b) by (nonlinear_arith)
            requires
                0 <= a < b,
        ;
    }
    if b < a {
        assert(b * b < a * a) by (nonlinear_arith)
            requires
                0 <= b < a,
        ;
    }
}

/// A distance from one end of the distribution, squared, is at most the square
/// of its width.
proof fn lemma_reach(width: int, part: int, share: int)
    requires
        0 <= part <= width,
        0 <= share <= DRAW_UNIT,
    ensures
        0 <= width * part,
        0 <= width * part * share <= width * width * DRAW_UNIT,
{
    assert(0 <= width * part <= width * width) by (nonlinear_arith)
        requires
            0 <= part <= width,
    ;
    let a = width * part;
    let b = width * width;
    assert(0 <= a * share <= b * DRAW_UNIT) by (nonlinear_arith)
        requires
            0 <= a <= b,
            0 <= share <= DRAW_UNIT,
    ;
}

/// A draw lies in the range of its distribution.
pub proof fn law_quantile_is_in_range(low: int, mode: int, high: int, n: int, r: int)
    requires
        low <= mode <= high,
        low < high,
        0 <= n < DRAW_UNIT,
        is_quantile(low, mode, high, n, r),
    ensures
        low <= r <= high,
{
    let width = high - low;
    if n * width < (mode - low) * DRAW_UNIT {
        lemma_reach(width, mode - low, n);
        lemma_squares(r - low, width);
    } else {
        lemma_reach(width, high - mode, DRAW_UNIT - n);
        if r < high {
            lemma_squares(high - r - 1, width);
        }
    }
}

/// A larger draw falls into no earlier minute.
pub proof fn law_quantile_grows(
    low: int,
    mode: int,
    high: int,
    n1: int,
    n2: int,
    r1: int,
    r2: int,
)
    requires
        low <= mode <= high,
        low < high,
        0 <= n1 <= n2 < DRAW_UNIT,
        is_quantile(low, mode, high, n1, r1),
        is_quantile(low, mode, high, n2, r2),
    ensures
        r1 <= r2,
{
    let width = high - low;
    let below = mode - low;
    let above = high - mode;
    let one = DRAW_UNIT as int;
    assert(n1 * width <= n2 * width) by (nonlinear_arith)
        requires
            n1 <= n2,
            width >= 0,
    ;
    if n2 * width < below * one {
        let a = width * below;
        assert(a * n1 <= a * n2) by (nonlinear_arith)
            requires
                a == width * below,
                width >= 0,
                below >= 0,
                n1 <= n2,
        ;
        lemma_squares(r1 - low, r2 + 1 - low);
    } else if n1 * width < below * one {
        assert(width * below * n1 < below * below * one) by (nonlinear_arith)
            requires
                n1 * width < below * one,
                below > 0,
        ;
        lemma_squares(r1 - low, below);
        assert(width * above * (one - n2) <= above * above * one) by (nonlinear_arith)
            requires
                n2 * width >= below * one,
                width == below + above,
                above >= 0,
        ;
        if r2 < high {
            lemma_squares(high - r2 - 1, above);
        }
    } else {
        let a = width * above;
        assert(a * (one - n2) <= a * (one - n1)) by (nonlinear_arith)
            requires
                a == width * above,
                width >= 0,
                above >= 0,
                n1 <= n2,
        ;
        if r2 < high {
            lemma_squares(high - r2 - 1, high - r1);
        }
    }
}

/// A draw falls into one minute only.
pub proof fn law_quantile_is_unique(low: int, mode: int, high: int, n: int, r: int, q: int)
    requires
        is_quantile(low, mode, high, n, r),
        is_quantile(low, mode, high, n, q),
    ensures
        r == q,
{
    if n * (high - low) < (mode - low) * DRAW_UNIT {
        lemma_squares(r - low, q + 1 - low);
        lemma_squares(q - low, r + 1 - low);
    } else {
        if r < high {
            lemma_squares(high - r - 1, high - q);
        }
        if q < high {
            lemma_squares(high - q - 1, high - r);
        }
    }
}

/// A sample of the triangular distribution from `low` over `mode` to `high`, in
/// whole minutes rounded down: its quantile at the fraction that `draw` stands
/// for.
pub fn sample_triangular(low: i32, mode: i32, high: i32, draw: u64) -> (r: i32)
    requires
        low <= mode <= high,
        low < high,
    ensures
        is_quantile(low as int, mode as int, high as int, numerator(draw), r as int),
        low <= r <= high,
{
    let n: u128 = unit_numerator(draw) as u128;
    let one: u128 = DRAW_UNIT as u128;
    let width: u128 = (high as i64 - low as i64) as u128;
    let below: u128 = (mode as i64 - low as i64) as u128;
    let above: u128 = (high as i64 - mode as i64) as u128;
    proof {
        lemma_reach(width as int, below as int, n as int);
        lemma_reach(width as int, above as int, one - n);
        assert(width * width * DRAW_UNIT <= 0xffff_ffff * 0xffff_ffff * DRAW_UNIT)
            by (nonlinear_arith)
            requires
                0 <= width <= 0xffff_ffff,
        ;
        assert(0 <= n * width <= DRAW_UNIT * 0xffff_ffff) by (nonlinear_arith)
            requires
                0 <= n <= DRAW_UNIT,
                0 <= width <= 0xffff_ffff,
        ;
        assert(0 <= width * below <= 0xffff_ffff * 0xffff_ffff) by (nonlinear_arith)
            requires
                0 <= width <= 0xffff_ffff,
                0 <= below <= width,
        ;
        assert(0 <= width * above <= 0xffff_ffff * 0xffff_ffff) by (nonlinear_arith)
            requires
                0 <= width <= 0xffff_ffff,
                0 <= above <= width,
        ;
    }
    let r: i32 = if n * width < below * one {
        let m = root_down(width * below * n, width);
        (low as i64 + m as i64) as i32
    } else {
        let m = root_up(width * above * (one - n), width);
        (high as i64 - m as i64) as i32
    };
    r
}

/// The largest `m` with `m * m * 2^53` no larger than `target`.
fn root_down(target: u128, width: u128) -> (m: u128)
    requires
        width <= 0xffff_ffff,
        target <= width * width * DRAW_UNIT,
    ensures
        m <= width,
        m * m * DRAW_UNIT <= target < (m + 1) * (m + 1) * DRAW_UNIT,
{
    let mut m: u128 = 0;
    loop
        invariant_except_break
            width <= 0xffff_ffff,
            target <= width * width * DRAW_UNIT,
            m <= width,
            m * m * DRAW_UNIT <= target,
        ensures
            m <= width,
            m * m * DRAW_UNIT <= target < (m + 1) * (m + 1) * DRAW_UNIT,
        decreases width - m,
    {
        let k: u128 = m + 1;
        proof {
            assert(0 <= k * k <= 0x1_0000_0000 * 0x1_0000_0000) by (nonlinear_arith)
                requires
                    0 <= k <= 0x1_0000_0000,
            ;
            lemma_squares(k as int, width as int);
        }
        if k * k * DRAW_UNIT as u128 > target {
            break;
        }
        m = k;
    }
    m
}

/// The smallest `m` with `m * m * 2^53` no smaller than `target`.
fn root_up(target: u128, width: u128) -> (m: u128)
    requires
        width <= 0xffff_ffff,
        target <= width * width * DRAW_UNIT,
    ensures
        m <= width,
        target <= m * m * DRAW_UNIT,
        m > 0 ==> (m - 1) * (m - 1) * DRAW_UNIT < target,
{
    let mut m: u128 = 0;
    loop
        invariant_except_break
            width <= 0xffff_ffff,
            target <= width * width * DRAW_UNIT,
            m <= width,
            m > 0 ==> (m - 1) * (m - 1) * DRAW_UNIT < target,
        ensures
            m <= width,
            target <= m * m * DRAW_UNIT,
            m > 0 ==> (m - 1) * (m - 1) * DRAW_UNIT < target,
        decreases width - m,
    {
        proof {
            assert(0 <= m * m <= 0xffff_ffff * 0xffff_ffff) by (nonlinear_arith)
                requires
                    0 <= m <= 0xffff_ffff,
            ;
            lemma_squares(m as int, width as int);
            lemma_squares(width as int, m as int);
        }
        if m * m * DRAW_UNIT as u128 >= target {
            break;
        }
        m = m + 1;
    }
    m
}

/// The random numbers that day `i` is sampled from: two for its start and end,
/// and the seed of its dice.
pub open spec fn draws_of_day(seed: u64, i: int) -> (u64, u64, u64) {
    (
        crate::rng::std_rng_u64(seed, (3 * i) as nat),
        crate::rng::std_rng_u64(seed, (3 * i + 1) as nat),
        crate::rng::std_rng_u64(seed, (3 * i + 2) as nat),
    )
}

/// The random numbers to sample `n_days` days from.
pub fn day_draws(n_days: usize, seed: u64) -> (r: Vec<(u64, u64, u64)>)
    requires
        n_days * 24 <= isize::MAX,
    ensures
        r@.len() == n_days,
        forall|i: int| 0 <= i < n_days ==> #[trigger] r@[i] == draws_of_day(seed, i),
{
    let draws = std_rng_draws(seed, 3 * n_days);
    let mut r: Vec<(u64, u64, u64)> = Vec::new();
    let mut i: usize = 0;
    while i < n_days
        invariant
            i <= n_days,
            n_days * 24 <= isize::MAX,
            draws@.len() == 3 * n_days,
            forall|j: int|
                0 <= j < 3 * n_days ==> #[trigger] draws@[j] == crate::rng::std_rng_u64(seed, j as nat),
            r@.len() == i,
            forall|j: int| 0 <= j < i ==> #[trigger] r@[j] == draws_of_day(seed, j),
        decreases n_days - i,
    {
        r.push((draws[3 * i], draws[3 * i + 1], draws[3 * i + 2]));
        i = i + 1;
    }
    r
}

/// `d` is the day that the random numbers `draws` stand for.
pub open spec fn is_sampled(d: Day, draws: (u64, u64, u64)) -> bool {
    &&& is_quantile(
        START_LOW as int,
        START_MODE as int,
        START_HIGH as int,
        numerator(draws.0),
        d.start as int,
    )
    &&& is_quantile(
        END_LOW as int,
        END_MODE as int,
        END_HIGH as int,
        numerator(draws.1),
        d.end as int,
    )
    &&& d.seed == draws.2
}

/// `days` are the first days sampled under `seed`.
pub open spec fn are_sampled(days: Seq<Day>, seed: u64) -> bool {
    forall|i: int| 0 <= i < days.len() ==> is_sampled(#[trigger] days[i], draws_of_day(seed, i))
}

/// The days depend on the seed alone: asking for more of them only appends.
pub proof fn law_more_days_append(days: Seq<Day>, more: Seq<Day>, seed: u64)
    requires
        are_sampled(days, seed),
        are_sampled(more, seed),
        days.len() <= more.len(),
    ensures
        more.take(days.len() as int) == days,
{
    assert forall|i: int| 0 <= i < days.len() implies more.take(days.len() as int)[i]
        == days[i] by {
        let (a, b) = (days[i], more[i]);
        let draws = draws_of_day(seed, i);
        assert(is_sampled(a, draws) && is_sampled(b, draws));
        law_quantile_is_unique(
            START_LOW as int,
            START_MODE as int,
            START_HIGH as int,
            numerator(draws.0),
            a.start as int,
            b.start as int,
        );
        law_quantile_is_unique(
            END_LOW as int,
            END_MODE as int,
            END_HIGH as int,
            numerator(draws.1),
            a.end as int,
            b.end as int,
        );
    }
    assert(more.take(days.len() as int) =~= days);
}

impl JigglyTuning {
    /// Samples `n_days` days under `seed`, once for all choices of knobs, so
    /// that what differs between two of them is the knobs and not the days.
    pub fn new(n_days: usize, seed: u64) -> (r: JigglyTuning)
        requires
            n_days * 24 <= isize::MAX,
        ensures
            r.days@.len() == n_days,
            are_sampled(r.days@, seed),
            forall|i: int|
                0 <= i < n_days ==> START_LOW <= (#[trigger] r.days@[i]).start <= START_HIGH
                    && END_LOW <= r.days@[i].end <= END_HIGH,
            forall|rt: i32| -1_000_000_000 <= rt <= 1_000_000_000 ==> #[trigger] r.fits(rt),
    {
        let draws = day_draws(n_days, seed);
        let mut days: Vec<Day> = Vec::new();
        let mut i: usize = 0;
        while i < n_days
            invariant
                i <= n_days,
                draws@.len() == n_days,
                forall|j: int| 0 <= j < n_days ==> #[trigger] draws@[j] == draws_of_day(seed, j),
                days@.len() == i,
                are_sampled(days@, seed),
                forall|j: int|
                    0 <= j < i ==> START_LOW <= (#[trigger] days@[j]).start <= START_HIGH
                        && END_LOW <= days@[j].end <= END_HIGH,
            decreases n_days - i,
        {
            let (first, second, third) = draws[i];
            assert(draws@[i as int] == draws_of_day(seed, i as int));
            let start = sample_triangular(START_LOW, START_MODE, START_HIGH, first);
            let end = sample_triangular(END_LOW, END_MODE, END_HIGH, second);
            days.push(Day { start, end, seed: third });
            i = i + 1;
        }
        JigglyTuning { days }
    }
}

// ---------------------------------------------------------------------------
// What the model says of a day, minute by minute.
// ---------------------------------------------------------------------------

/// What the two warning spirals add to the chance of a press, in thousandths.
pub open spec fn spiral_bump(remaining: int) -> int {
    if remaining == 10 {
        40
    } else if remaining == 5 {
        30
    } else {
        0
    }
}

/// The user goes by the LED: apart from the minutes of the two spirals, the
/// chance of a press depends on the look alone, and is none in green, 1.5% in
/// yellow, 4% in red and 6% in fast red.
pub proof fn law_chance_follows_the_look(k: Knobs, remaining: int)
    requires
        k.feasible(),
        remaining > 0,
    ensures
        press_chance(k, remaining) - spiral_bump(remaining) == match crate::led::band_of(
            k,
            remaining * 60_000_000,
        ) {
            crate::led::Band::Green => 0int,
            crate::led::Band::Yellow => 15int,
            crate::led::Band::Red => 40int,
            crate::led::Band::FastRed => 60int,
        },
{
}

/// Two times to go that show the same look have the same chance.
pub proof fn law_chance_is_even_within_a_look(k: Knobs, r1: int, r2: int)
    requires
        k.feasible(),
        r1 > 0,
        r2 > 0,
        (k.ra < r1 <= k.ya && k.ra < r2 <= k.ya) || (k.fra < r1 <= k.ra && k.fra < r2 <= k.ra) || (
        r1 <= k.fra && r2 <= k.fra) || (r1 > k.ya && r2 > k.ya),
    ensures
        press_chance(k, r1) - spiral_bump(r1) == press_chance(k, r2) - spiral_bump(r2),
{
}

/// The chance under knobs in any order: each phase has its own, exactly within
/// its thresholds, and outside them all there is none.
pub proof fn law_chance_within_thresholds(k: Knobs, remaining: int)
    ensures
        ({
            let c = press_chance(k, remaining) - spiral_bump(remaining);
            &&& c == 15 <==> k.ra < remaining && remaining <= k.ya
            &&& c == 40 <==> k.fra < remaining && remaining <= k.ra
            &&& c == 60 <==> 0 < remaining && remaining <= k.fra && !(k.ra < remaining && remaining
                <= k.ya) && !(remaining <= k.ra && k.fra < remaining)
            &&& c == 0 || c == 15 || c == 40 || c == 60
        }),
{
}

/// A die is the upper 53 bits of its draw, and hits where these, as a fraction of
/// all they can be, are below the chance.
pub proof fn law_die_is_a_fraction(draw: u64, chance: int)
    ensures
        numerator(draw) * 2048 <= draw < (numerator(draw) + 1) * 2048,
        die_hits(draw, chance) <==> (draw - draw % 2048) * 1000 < chance * 0x1_0000_0000_0000_0000,
{
}

/// A better chance, or a lower die, never turns a press away; and a chance of
/// none is never met, one of certainty always.
pub proof fn law_dice_are_fair(low: u64, high: u64, less: int, more: int)
    requires
        low <= high,
        less <= more,
    ensures
        die_hits(high, less) ==> die_hits(low, more),
        !die_hits(low, 0),
        die_hits(high, 1000),
{
}

/// `1` where `b` holds.
pub open spec fn one_if(b: bool) -> int {
    if b {
        1
    } else {
        0
    }
}

/// Every minute of a day is accounted for. Back at 13:00 the user presses. A
/// device that dies on a working user is pressed in that minute. A working minute
/// with the device running rolls one die, and a hit is a press. Every press runs
/// the device for a whole cycle from its minute. Asleep, a minute counts for
/// lunch or for work; running past the end of work it counts as after hours.
pub proof fn law_minute_is_accounted_for(m: Sim, t: int, e: int, k: Knobs, rolls: Seq<u64>)
    ensures
        ({
            let n = sim_minute(m, t, e, k, rolls);
            let back = t == 780 && t < e;
            let expire = if back {
                t + k.rt
            } else {
                m.expire
            };
            let runs = t < expire;
            let lunch = t < e && 720 <= t && t < 780;
            let work = t < e && !(720 <= t && t < 780);
            let dies = work && !runs && m.prev_running;
            let reacts = work && runs && die_hits(
                rolls[m.draws as int],
                press_chance(k, expire - t),
            );
            &&& n.presses == m.presses + one_if(back) + one_if(dies || reacts)
            &&& n.expire == if dies || reacts {
                t + k.rt
            } else {
                expire
            }
            &&& n.prev_running == (runs || dies)
            &&& n.draws == m.draws + one_if(work && runs)
            &&& n.slept_lunch == m.slept_lunch + one_if(lunch && !runs)
            &&& n.slept_work == m.slept_work + one_if(work && !runs && !dies)
            &&& n.after_hours == m.after_hours + one_if(t >= e && runs)
        }),
{
}

/// A day begins with the press that starts the device, goes minute by minute,
/// and is followed until work is over and two cycles have passed, no longer.
pub proof fn law_day_goes_minute_by_minute(s: int, e: int, k: Knobs, rolls: Seq<u64>, t: int)
    requires
        s <= t,
    ensures
        ({
            let m = sim_until(s, e, k, rolls, s);
            &&& m.expire == s + k.rt
            &&& m.prev_running
            &&& m.presses == 1
            &&& m.draws == 0 && m.slept_work == 0 && m.slept_lunch == 0 && m.after_hours == 0
        }),
        sim_until(s, e, k, rolls, t + 1) == sim_minute(
            sim_until(s, e, k, rolls, t),
            t,
            e,
            k,
            rolls,
        ),
        ({
            let end = sim_end(s, e, k.rt as int);
            &&& end > e && end > s + k.rt && end > s + 2 * k.rt
            &&& end == e + 1 || end == s + k.rt + 1 || end == s + 2 * k.rt + 1
        }),
{
}

/// A day's dice are the first numbers of its own seed, one for each minute of
/// work.
pub proof fn law_day_rolls_its_own_dice(s: int, e: int, seed: u64, k: Knobs)
    ensures
        ({
            let rolls = day_rolls(s, e, seed);
            &&& rolls.len() == if e > s {
                e - s
            } else {
                0
            }
            &&& forall|i: int|
                0 <= i < rolls.len() ==> #[trigger] rolls[i] == crate::rng::std_rng_u64(
                    seed,
                    i as nat,
                )
            &&& day_result(s, e, seed, k) == sim_until(
                s,
                e,
                k,
                rolls,
                sim_end(s, e, k.rt as int),
            )
        }),
{
}

/// One more day adds what it came to, and nothing else: its minutes, its presses,
/// and one to the sweet days if it slept between a quarter and three quarters of
/// an hour over lunch. No days add up to nothing.
pub proof fn law_totals_add_up(
    days: Seq<Day>,
    d: Day,
    k: Knobs,
    t: Totals,
    u: Totals,
    o: DayOutcome,
)
    requires
        totals_are(t, days, k),
        totals_are(u, days.push(d), k),
        outcome_is(o, day_result(d.start as int, d.end as int, d.seed, k)),
    ensures
        u.days == t.days + 1,
        u.sweet == t.sweet + one_if(15 <= o.slept_lunch && o.slept_lunch <= 45),
        u.lunch == t.lunch + o.slept_lunch,
        u.work == t.work + o.slept_work,
        u.presses == t.presses + o.presses,
        u.after == t.after + o.after_hours,
        days.len() == 0 ==> t == (Totals {
            days: 0,
            sweet: 0,
            lunch: 0,
            work: 0,
            presses: 0,
            after: 0,
        }),
{
    assert(days.push(d).drop_last() =~= days);
}

/// An outcome holds the counts of its day, each under its own name.
pub proof fn law_outcome_counts_the_day(o: DayOutcome, m: Sim)
    requires
        outcome_is(o, m),
    ensures
        o.presses == m.presses,
        o.slept_work == m.slept_work,
        o.slept_lunch == m.slept_lunch,
        o.after_hours == m.after_hours,
{
}

// ---------------------------------------------------------------------------
// What the violation measures.
// ---------------------------------------------------------------------------

/// The larger of two numbers.
pub open spec fn larger(a: int, b: int) -> int {
    if a >= b {
        a
    } else {
        b
    }
}

/// The distance between two numbers.
pub open spec fn apart(a: int, b: int) -> int {
    if a >= b {
        a - b
    } else {
        b - a
    }
}

/// The violation counts minutes: for each of the three orders that the LED phases
/// need, the minutes by which it is missed.
pub proof fn law_violation_counts_minutes(k: Knobs)
    ensures
        violation_of(k) == larger(0, k.ra - k.ya + 1) + larger(0, k.fra - k.ra + 1) + larger(
            0,
            1 - k.fra,
        ),
{
}

/// One minute further out of order costs exactly one more.
pub proof fn law_violation_grows_by_the_minute(k: Knobs, j: Knobs)
    ensures
        j.ya == k.ya - 1 && j.ra == k.ra && j.fra == k.fra && k.ra >= k.ya ==> violation_of(j)
            == violation_of(k) + 1,
        j.ya == k.ya && j.ra == k.ra - 1 && j.fra == k.fra && k.fra >= k.ra && k.ra < k.ya
            ==> violation_of(j) == violation_of(k) + 1,
        j.ya == k.ya && j.ra == k.ra && j.fra == k.fra + 1 && k.fra >= k.ra && k.fra > 0
            ==> violation_of(j) == violation_of(k) + 1,
        j.ya == k.ya && j.ra == k.ra && j.fra == k.fra - 1 && k.fra < k.ra && k.fra <= 0
            ==> violation_of(j) == violation_of(k) + 1,
        j.ya == k.ya && j.ra == k.ra && j.fra == k.fra && j.rt != k.rt ==> violation_of(j)
            == violation_of(k),
{
}

/// The violation is no idle number: knobs that are in order lie at least as many
/// minutes away, over all thresholds, as any one of its terms counts, and at
/// least a third of the whole.
pub proof fn law_violation_is_a_distance(k: Knobs, valid: Knobs)
    requires
        valid.feasible(),
    ensures
        ({
            let moved = apart(k.ya as int, valid.ya as int) + apart(k.ra as int, valid.ra as int)
                + apart(k.fra as int, valid.fra as int);
            &&& moved >= k.ra - k.ya + 1
            &&& moved >= k.fra - k.ra + 1
            &&& moved >= 1 - k.fra
            &&& 3 * moved >= violation_of(k)
        }),
{
}

/// Knobs are in order where the thresholds fall strictly, down to a fast red of
/// at least a minute.
pub proof fn law_order_of_the_thresholds(k: Knobs)
    ensures
        k.feasible() <==> k.fra >= 1 && k.ra >= k.fra + 1 && k.ya >= k.ra + 1,
        k.feasible() ==> k.ya >= 3 && k.ra >= 2,
{
}

// ---------------------------------------------------------------------------
// What the samples are distributed like.
// ---------------------------------------------------------------------------

/// A sample inverts the triangular distribution: it reaches `x` exactly where the
/// share of the distribution below `x` is no more than the draw. Up to the mode
/// that share is `(x - low)^2 / ((high - low) (mode - low))`; from there on what
/// is above is `(high - x)^2 / ((high - low) (high - mode))`.
pub proof fn law_quantile_inverts_the_distribution(
    low: int,
    mode: int,
    high: int,
    n: int,
    r: int,
    x: int,
)
    requires
        low <= mode <= high,
        low < high,
        0 <= n < 0x20_0000_0000_0000,
        is_quantile(low, mode, high, n, r),
        low <= x <= high,
    ensures
        x <= mode ==> (r >= x <==> (x - low) * (x - low) * 0x20_0000_0000_0000 <= (high - low) * (
        mode - low) * n),
        x >= mode && mode < high ==> (r >= x <==> (high - x) * (high - x) * 0x20_0000_0000_0000 >= (
        high - low) * (high - mode) * (0x20_0000_0000_0000 - n)),
{
    let width = high - low;
    let below = mode - low;
    let above = high - mode;
    let one = DRAW_UNIT as int;
    assert(one == 0x20_0000_0000_0000);
    lemma_squares(x - low, below);
    lemma_squares(high - x, above);
    if n * width < below * one {
        assert(width * below * n < below * below * one) by (nonlinear_arith)
            requires
                n * width < below * one,
                below > 0,
        ;
        lemma_squares(r - low, below);
        lemma_squares(x - low, r - low);
        lemma_squares(r + 1 - low, x - low);
        if above > 0 {
            assert(width * above * (one - n) > above * above * one) by (nonlinear_arith)
                requires
                    n * width < below * one,
                    width == below + above,
                    above > 0,
            ;
        }
    } else {
        assert(above > 0) by (nonlinear_arith)
            requires
                n * width >= below * one,
                n < one,
                width == below + above,
                width > 0,
                above >= 0,
        ;
        lemma_squares(high - r, high - x);
        assert(width * above * (one - n) <= above * above * one) by (nonlinear_arith)
            requires
                n * width >= below * one,
                width == below + above,
                above >= 0,
        ;
        if r < high {
            lemma_squares(high - x, high - r - 1);
            lemma_squares(high - r - 1, above);
        }
        assert(below * below * one <= width * below * n) by (nonlinear_arith)
            requires
                n * width >= below * one,
                below >= 0,
        ;
    }
}

/// Work starts between 8:00 and 9:30, most often at 8:30, and ends between 16:00
/// and 19:00, most often at 17:30: a day has started by `x` for the share of its
/// first number that the distribution gives, and ended by `x` for that of its
/// second; its third is the seed of its dice.
pub proof fn law_days_follow_their_hours(d: Day, draws: (u64, u64, u64), x: int)
    requires
        is_sampled(d, draws),
    ensures
        480 <= d.start <= 570,
        960 <= d.end <= 1140,
        480 <= x <= 510 ==> (d.start >= x <==> (x - 480) * (x - 480) * 0x20_0000_0000_0000 <= 2700 * (
        draws.0 as int / 2048)),
        510 <= x <= 570 ==> (d.start >= x <==> (570 - x) * (570 - x) * 0x20_0000_0000_0000 >= 5400 * (
        0x20_0000_0000_0000 - draws.0 as int / 2048)),
        960 <= x <= 1050 ==> (d.end >= x <==> (x - 960) * (x - 960) * 0x20_0000_0000_0000 <= 16200 * (
        draws.1 as int / 2048)),
        1050 <= x <= 1140 ==> (d.end >= x <==> (1140 - x) * (1140 - x) * 0x20_0000_0000_0000 >= 16200
            * (0x20_0000_0000_0000 - draws.1 as int / 2048)),
        d.seed == draws.2,
{
    let n1 = numerator(draws.0);
    let n2 = numerator(draws.1);
    law_quantile_is_in_range(480, 510, 570, n1, d.start as int);
    law_quantile_is_in_range(960, 1050, 1140, n2, d.end as int);
    if 480 <= x <= 570 {
        law_quantile_inverts_the_distribution(480, 510, 570, n1, d.start as int, x);
    }
    if 960 <= x <= 1140 {
        law_quantile_inverts_the_distribution(960, 1050, 1140, n2, d.end as int, x);
    }
}

/// The numbers that days are sampled from are those of the seed in their order,
/// three to a day, none skipped and none used twice.
pub proof fn law_days_use_up_the_draws(seed: u64, j: int)
    requires
        j >= 0,
    ensures
        ({
            let d = draws_of_day(seed, j / 3);
            crate::rng::std_rng_u64(seed, j as nat) == if j % 3 == 0 {
                d.0
            } else if j % 3 == 1 {
                d.1
            } else {
                d.2
            }
        }),
{
}

/// The day at each place is sampled from the three numbers of the seed that are
/// its own.
pub proof fn law_each_day_has_its_own_draws(days: Seq<Day>, seed: u64, i: int)
    requires
        are_sampled(days, seed),
        0 <= i < days.len(),
    ensures
        is_sampled(
            days[i],
            (
                crate::rng::std_rng_u64(seed, (3 * i) as nat),
                crate::rng::std_rng_u64(seed, (3 * i + 1) as nat),
                crate::rng::std_rng_u64(seed, (3 * i + 2) as nat),
            ),
        ),
        days[i].seed == crate::rng::std_rng_u64(seed, (3 * i + 2) as nat),
{
}

} // verus!
