//! What the LED shows: colours, breathing and blinking, and the two light
//! scripts at power-on and power-down.
use vstd::prelude::*;

use crate::chart::{Ctx, During};
use crate::config::{
    Knobs, BOOT_SWEEP_STEP, BREATHE_FLOOR, BREATHE_PEAK, FAST_RED_PERIOD, FLASH_PEAK, LED_POWER_UP,
    MINUTE, RED_PERIOD, SECOND, SETTLING_PULSE_PERIOD, SHUTDOWN_FLASH_STEP, SLOW_GREEN_PERIOD,
    SPINNER_FADE_DURATION, UNIT, WAKING_PULSE_PERIOD, YELLOW_PERIOD,
};

verus! {

/// A colour as the LED takes it.
#[derive(Debug, Clone, Copy, PartialEq, Eq, Structural)]
pub struct Rgb {
    pub r: u8,
    pub g: u8,
    pub b: u8,
}

/// One step of a light script.
#[derive(Debug, Clone, Copy, PartialEq, Eq, Structural)]
pub enum LedStep {
    /// Switch the LED's supply.
    Power(bool),
    Paint(Rgb),
    /// Wait, in microseconds.
    Wait(u64),
}

pub open spec fn rgb(r: int, g: int, b: int) -> Rgb {
    Rgb { r: r as u8, g: g as u8, b: b as u8 }
}

// ---------------------------------------------------------------------------
// Breathing and blinking.
// ---------------------------------------------------------------------------

/// Whole milliseconds into the current period.
pub open spec fn phase_ms(period: int, t: int) -> int {
    (t / 1000) % (period / 1000)
}

/// The blink is on for the first half of each period.
pub open spec fn is_on(period: int, t: int) -> bool {
    phase_ms(period, t) < period / 1000 / 2
}

/// An angle: `part / whole` of a turn.
#[derive(Debug, Clone, Copy, PartialEq, Eq, Structural)]
pub struct Angle {
    pub part: u64,
    pub whole: u64,
}

/// The angle of a breath of the given period at `t`, in whole milliseconds.
pub open spec fn angle_of(period: int, t: int) -> Angle {
    Angle { part: phase_ms(period, t) as u64, whole: (period / 1000) as u64 }
}

/// The angle of a breath of the given period at `t`.
pub fn breath_angle(period: u64, t: u64) -> (r: Angle)
    requires
        period >= 1000,
    ensures
        r == angle_of(period as int, t as int),
        r.part < r.whole,
{
    Angle { part: (t / 1000) % (period / 1000), whole: period / 1000 }
}

/// `c` is a cosine.
pub open spec fn is_cosine(c: int) -> bool {
    -UNIT <= c <= UNIT
}

/// The brightness of a breath where the cosine of its angle is `c`: from `floor`
/// at one to `peak` at minus one, rounded down.
pub open spec fn breath_level(c: int, floor: int, peak: int) -> int {
    floor + (UNIT - c) * crate::config::minus(peak, floor) / (2 * UNIT)
}

/// A breath stays between its floor and its peak, and is at them where its
/// cosine is one and minus one.
pub proof fn law_breath_stays_in_range(c: int, floor: int, peak: int)
    requires
        is_cosine(c),
        floor <= peak,
    ensures
        floor <= breath_level(c, floor, peak) <= peak,
        c == UNIT ==> breath_level(c, floor, peak) == floor,
        c == -UNIT ==> breath_level(c, floor, peak) == peak,
{
    let rise = UNIT - c;
    let span = crate::config::minus(peak, floor);
    assert(0 <= rise * span <= 2_147_483_648 * span && (rise == 0 ==> rise * span == 0) && (rise
        == 2_147_483_648 ==> rise * span == 2_147_483_648 * span)) by (nonlinear_arith)
        requires
            0 <= rise <= 2_147_483_648,
            span >= 0,
    ;
    assert(2 * UNIT == 2_147_483_648);
    assert(breath_level(c, floor, peak) == floor + rise * span / 2_147_483_648);
}

/// The brightness of a breath between `floor` and `peak`, where the cosine of
/// its angle is `cosine`.
pub fn sin_breath(cosine: i64, floor: u8, peak: u8) -> (r: u8)
    requires
        is_cosine(cosine as int),
    ensures
        r == breath_level(cosine as int, floor as int, peak as int),
        floor <= r,
        floor <= peak ==> r <= peak,
{
    let span: u8 = peak.saturating_sub(floor);
    proof {
        law_breath_stays_in_range(cosine as int, floor as int, floor + span);
    }
    let rise: u64 = (UNIT - cosine) as u64;
    assert(0 <= rise * span <= 2 * UNIT * span) by (nonlinear_arith)
        requires
            0 <= rise <= 2 * UNIT,
            span >= 0,
    ;
    floor + (rise * span as u64 / 2_147_483_648) as u8
}

/// Whether a blink of the given period is on at `t`.
pub fn blink_on(period: u64, t: u64) -> (r: bool)
    requires
        period >= 1000,
    ensures
        r == is_on(period as int, t as int),
{
    let period_ms: u64 = period / 1000;
    (t / 1000) % period_ms < period_ms / 2
}

/// A blink repeats with its period.
pub proof fn law_blink_repeats(period_ms: int, t: int)
    requires
        period_ms >= 1,
        t >= 0,
    ensures
        is_on(period_ms * 1000, t + period_ms * 1000) == is_on(period_ms * 1000, t),
{
    assert((t + period_ms * 1000) / 1000 == t / 1000 + period_ms);
    assert((period_ms * 1000) / 1000 == period_ms);
    vstd::arithmetic::div_mod::lemma_mod_add_multiples_vanish(t / 1000, period_ms);
}

/// The four looks of the active phase.
#[derive(Debug, Clone, Copy, PartialEq, Eq, Structural)]
pub enum Band {
    Green,
    Yellow,
    Red,
    FastRed,
}

/// The look with `remaining` microseconds to go.
pub open spec fn band_of(k: Knobs, remaining: int) -> Band {
    if remaining > k.ya * MINUTE {
        Band::Green
    } else if remaining > k.ra * MINUTE {
        Band::Yellow
    } else if remaining > k.fra * MINUTE {
        Band::Red
    } else {
        Band::FastRed
    }
}

/// The period of a look.
pub open spec fn period_of(b: Band) -> u64 {
    match b {
        Band::Green => SLOW_GREEN_PERIOD,
        Band::Yellow => YELLOW_PERIOD,
        Band::Red => RED_PERIOD,
        Band::FastRed => FAST_RED_PERIOD,
    }
}

/// The blinking red at `t`.
pub open spec fn fast_red_at(t: int) -> Rgb {
    rgb(
        if is_on(FAST_RED_PERIOD as int, t) {
            BREATHE_PEAK as int
        } else {
            BREATHE_FLOOR as int
        },
        0,
        0,
    )
}

/// The device's own breath, where the cosine of its angle is `c`.
pub open spec fn level_at(c: int) -> int {
    breath_level(c, BREATHE_FLOOR as int, BREATHE_PEAK as int)
}

/// The colour of a look, `elapsed` microseconds into the active phase, where the
/// cosine of the breath's angle is `c`.
pub open spec fn color_of(b: Band, elapsed: int, c: int) -> Rgb {
    let level = level_at(c);
    match b {
        Band::Green => rgb(0, level, 0),
        Band::Yellow => rgb(level, level * 5 / 10, 0),
        Band::Red => rgb(level, 0, 0),
        Band::FastRed => fast_red_at(elapsed),
    }
}

/// The look with `remaining` microseconds to go.
pub fn band_for(k: &Knobs, remaining: u64) -> (r: Band)
    requires
        k.runnable(),
    ensures
        r == band_of(*k, remaining as int),
{
    if remaining > k.yellow_at() {
        Band::Green
    } else if remaining > k.red_at() {
        Band::Yellow
    } else if remaining > k.fast_red_at() {
        Band::Red
    } else {
        Band::FastRed
    }
}

impl Band {
    /// The period of this look.
    pub fn period(self) -> (r: u64)
        ensures
            r == period_of(self),
            r >= 1000,
    {
        match self {
            Band::Green => SLOW_GREEN_PERIOD,
            Band::Yellow => YELLOW_PERIOD,
            Band::Red => RED_PERIOD,
            Band::FastRed => FAST_RED_PERIOD,
        }
    }
}

/// The colour with `remaining` microseconds to go, `elapsed` into the active
/// phase. `cosine` is that of the angle that the look breathes at; the blink does
/// not need it.
pub fn breathe_for(k: &Knobs, remaining: u64, elapsed: u64, cosine: i64) -> (r: Rgb)
    requires
        k.runnable(),
        is_cosine(cosine as int),
    ensures
        r == color_of(band_of(*k, remaining as int), elapsed as int, cosine as int),
{
    match band_for(k, remaining) {
        Band::Green => {
            let level = sin_breath(cosine, BREATHE_FLOOR, BREATHE_PEAK);
            Rgb { r: 0, g: level, b: 0 }
        },
        Band::Yellow => {
            let level = sin_breath(cosine, BREATHE_FLOOR, BREATHE_PEAK);
            Rgb { r: level, g: ((level as u16 * 5) / 10) as u8, b: 0 }
        },
        Band::Red => {
            let level = sin_breath(cosine, BREATHE_FLOOR, BREATHE_PEAK);
            Rgb { r: level, g: 0, b: 0 }
        },
        Band::FastRed => blink_fast_red(elapsed),
    }
}

/// The run time is made of whole seconds.
proof fn lemma_run_is_whole_seconds(k: Knobs) -> (seconds: int)
    ensures
        k.run_before_shutdown_us() == seconds * 1_000_000,
{
    if k.rt * MINUTE >= 30_000_000 {
        60 * k.rt - 30
    } else {
        0
    }
}

/// The run time that the breathing counts down: whole seconds of it.
pub fn run_before_shutdown_e(k: &Knobs) -> (r: u64)
    requires
        k.runnable(),
    ensures
        r == k.run_before_shutdown_us(),
{
    let run: u64 = k.run_before_shutdown();
    let seconds: u64 = run / SECOND;
    proof {
        let n = lemma_run_is_whole_seconds(*k);
        assert(seconds == n);
    }
    seconds * SECOND
}

/// What the active phase has left at `elapsed`; nothing once it is over.
pub fn active_remaining(k: &Knobs, elapsed: u64) -> (r: u64)
    requires
        k.runnable(),
    ensures
        r == crate::config::minus(k.run_before_shutdown_us(), elapsed as int),
{
    match run_before_shutdown_e(k).checked_sub(elapsed) {
        Some(r) => r,
        None => 0,
    }
}

/// Microseconds into the active phase at `now`; zero before it.
pub open spec fn into_active(ctx: Ctx, now: int) -> int {
    match ctx.active_start {
        Some(s) => now - s,
        None => 0,
    }
}

/// The look at `now`.
pub open spec fn band_at(k: Knobs, ctx: Ctx, now: int) -> Band {
    band_of(k, crate::config::minus(k.run_before_shutdown_us(), into_active(ctx, now)))
}

/// The look at instant `now`.
pub fn breathe_band(k: &Knobs, ctx: &Ctx, now: u64) -> (r: Band)
    requires
        k.runnable(),
        ctx.active_start matches Some(s) ==> s <= now,
    ensures
        r == band_at(*k, *ctx, now as int),
{
    band_for(k, active_remaining(k, ctx.active_elapsed(now)))
}

/// The breathing colour at instant `now`, where `cosine` is that of the angle
/// that the look breathes at.
pub fn breathe_color(k: &Knobs, ctx: &Ctx, now: u64, cosine: i64) -> (r: Rgb)
    requires
        k.runnable(),
        ctx.active_start matches Some(s) ==> s <= now,
        is_cosine(cosine as int),
    ensures
        r == color_of(
            band_at(*k, *ctx, now as int),
            into_active(*ctx, now as int),
            cosine as int,
        ),
{
    let elapsed = ctx.active_elapsed(now);
    let remaining = active_remaining(k, elapsed);
    breathe_for(k, remaining, elapsed, cosine)
}

/// The fast red blink at `t` microseconds.
pub fn blink_fast_red(t: u64) -> (r: Rgb)
    ensures
        r == fast_red_at(t as int),
{
    let level = if blink_on(FAST_RED_PERIOD, t) {
        BREATHE_PEAK
    } else {
        BREATHE_FLOOR
    };
    Rgb { r: level, g: 0, b: 0 }
}

/// The blue pulse while the host is woken.
pub fn pulse_blue(cosine: i64) -> (r: Rgb)
    requires
        is_cosine(cosine as int),
    ensures
        r == rgb(0, 0, level_at(cosine as int)),
{
    Rgb { r: 0, g: 0, b: sin_breath(cosine, BREATHE_FLOOR, BREATHE_PEAK) }
}

/// The white pulse while the display comes up.
pub fn pulse_white(cosine: i64) -> (r: Rgb)
    requires
        is_cosine(cosine as int),
    ensures
        r == rgb(
            level_at(cosine as int),
            level_at(cosine as int),
            level_at(cosine as int),
        ),
{
    let level = sin_breath(cosine, BREATHE_FLOOR, BREATHE_PEAK);
    Rgb { r: level, g: level, b: level }
}

/// Red and blue of the fade, `t` microseconds into it: the straight line from
/// the peak to nothing over the length of the fade, in whole milliseconds.
pub open spec fn fade_level(t: int) -> int {
    let total = SPINNER_FADE_DURATION as int / 1000;
    let ms = t / 1000;
    if ms >= total {
        0
    } else {
        BREATHE_PEAK * (total - ms) / total
    }
}

/// The fade from white to green, `t` microseconds into it.
pub fn fade_to_green(t: u64) -> (r: Rgb)
    ensures
        r == rgb(fade_level(t as int), BREATHE_PEAK as int, fade_level(t as int)),
{
    let total: u64 = SPINNER_FADE_DURATION / 1000;
    let ms: u64 = t / 1000;
    let rb: u8 = if ms >= total {
        0
    } else {
        (BREATHE_PEAK as u64 * (total - ms) / total) as u8
    };
    Rgb { r: rb, g: BREATHE_PEAK, b: rb }
}

/// The white flash after a jiggle.
pub fn paint_white() -> (r: Rgb)
    ensures
        r == rgb(FLASH_PEAK as int, FLASH_PEAK as int, FLASH_PEAK as int),
{
    Rgb { r: FLASH_PEAK, g: FLASH_PEAK, b: FLASH_PEAK }
}

// ---------------------------------------------------------------------------
// The activities.
// ---------------------------------------------------------------------------

/// The angle that the breathing of look `b` has at `now`. The green breath of the
/// active phase begins half a period in, at its peak, where the fade before it
/// ends; before the active phase it rests at its floor.
pub open spec fn look_angle(b: Band, ctx: Ctx, now: int) -> Angle {
    let period = period_of(b) as int;
    if b == Band::Green && ctx.active_start is Some {
        angle_of(period, into_active(ctx, now) + period / 2)
    } else {
        angle_of(period, into_active(ctx, now))
    }
}

/// The angle that the breathing of a look has at instant `now`.
pub fn breathe_angle(b: Band, ctx: &Ctx, now: u64) -> (r: Angle)
    requires
        ctx.active_start matches Some(s) ==> s <= now,
    ensures
        r == look_angle(b, *ctx, now as int),
        r.part < r.whole,
{
    let a = breath_angle(b.period(), ctx.active_elapsed(now));
    if b == Band::Green && ctx.active_start.is_some() {
        proof {
            let elapsed = into_active(*ctx, now as int);
            let ms = elapsed / 1000;
            assert(a.part == ms % 4000 && a.whole == 4000);
            assert((elapsed + 2_000_000) / 1000 == ms + 2000);
            assert((ms % 4000 + 2000) % 4000 == (ms + 2000) % 4000);
        }
        Angle { part: (a.part + a.whole / 2) % a.whole, whole: a.whole }
    } else {
        a
    }
}

/// The angle that activity `d` breathes at, `t` microseconds after it began, at
/// instant `now`; none for the activities that do not breathe.
pub open spec fn activity_angle(d: During, k: Knobs, ctx: Ctx, now: int, t: int) -> Option<Angle> {
    match d {
        During::PulseBlue => Some(angle_of(WAKING_PULSE_PERIOD as int, t)),
        During::PulseWhite => Some(angle_of(SETTLING_PULSE_PERIOD as int, t)),
        During::BreatheColor => match band_at(k, ctx, now) {
            Band::FastRed => None,
            b => Some(look_angle(b, ctx, now)),
        },
        _ => None,
    }
}

/// The colour that activity `d` shows, `t` microseconds after it began, at
/// instant `now`, where `c` is the cosine of the angle it breathes at; none for
/// the activities that show none, or a script.
pub open spec fn activity_color(
    d: During,
    k: Knobs,
    ctx: Ctx,
    now: int,
    t: int,
    c: int,
) -> Option<Rgb> {
    match d {
        During::PulseBlue => Some(rgb(0, 0, level_at(c))),
        During::PulseWhite => Some(rgb(level_at(c), level_at(c), level_at(c))),
        During::FadeToGreen => Some(rgb(fade_level(t), BREATHE_PEAK as int, fade_level(t))),
        During::BreatheColor => Some(color_of(band_at(k, ctx, now), into_active(ctx, now), c)),
        During::BlinkFastRed => Some(fast_red_at(t)),
        _ => None,
    }
}

/// The angle that an activity breathes at now.
pub fn angle_now(d: During, k: &Knobs, ctx: &Ctx, now: u64, t: u64) -> (r: Option<Angle>)
    requires
        k.runnable(),
        ctx.active_start matches Some(s) ==> s <= now,
    ensures
        r == activity_angle(d, *k, *ctx, now as int, t as int),
        r matches Some(a) ==> a.part < a.whole,
{
    match d {
        During::PulseBlue => Some(breath_angle(WAKING_PULSE_PERIOD, t)),
        During::PulseWhite => Some(breath_angle(SETTLING_PULSE_PERIOD, t)),
        During::BreatheColor => {
            let band = breathe_band(k, ctx, now);
            if band == Band::FastRed {
                None
            } else {
                Some(breathe_angle(band, ctx, now))
            }
        },
        _ => None,
    }
}

/// The colour that an activity shows now.
pub fn color_now(d: During, k: &Knobs, ctx: &Ctx, now: u64, t: u64, cosine: i64) -> (r: Option<Rgb>)
    requires
        k.runnable(),
        ctx.active_start matches Some(s) ==> s <= now,
        is_cosine(cosine as int),
    ensures
        r == activity_color(d, *k, *ctx, now as int, t as int, cosine as int),
{
    match d {
        During::PulseBlue => Some(pulse_blue(cosine)),
        During::PulseWhite => Some(pulse_white(cosine)),
        During::FadeToGreen => Some(fade_to_green(t)),
        During::BreatheColor => Some(breathe_color(k, ctx, now, cosine)),
        During::BlinkFastRed => Some(blink_fast_red(t)),
        _ => None,
    }
}

/// Every activity that works the LED shows a colour, but the sweep, which is a
/// script; and one that breathes shows one.
pub proof fn law_light_activities_shine(d: During, k: Knobs, ctx: Ctx, now: int, t: int, c: int)
    ensures
        activity_color(d, k, ctx, now, t, c) is Some <==> crate::chart::uses_led(d) && d
            != During::BootSweep,
        activity_angle(d, k, ctx, now, t) is Some ==> activity_color(d, k, ctx, now, t, c) is Some,
{
}

/// No activity is brighter than the peak on any channel.
pub proof fn law_light_stays_gentle(d: During, k: Knobs, ctx: Ctx, now: int, t: int, c: int)
    requires
        is_cosine(c),
        t >= 0,
    ensures
        activity_color(d, k, ctx, now, t, c) matches Some(x) ==> x.r <= BREATHE_PEAK && x.g
            <= BREATHE_PEAK && x.b <= BREATHE_PEAK,
{
    law_breath_stays_in_range(c, BREATHE_FLOOR as int, BREATHE_PEAK as int);
}

/// The looks come in order as time runs down: green, yellow, red, fast red.
pub open spec fn band_rank(b: Band) -> int {
    match b {
        Band::Green => 0,
        Band::Yellow => 1,
        Band::Red => 2,
        Band::FastRed => 3,
    }
}

/// With less time to go, the look never goes back.
pub proof fn law_looks_only_advance(k: Knobs, sooner: int, later: int)
    requires
        sooner >= later,
    ensures
        band_rank(band_of(k, sooner)) <= band_rank(band_of(k, later)),
{
}

/// Every look is seen: with its phases in order, each lasts from its threshold
/// down to the next.
pub proof fn law_every_look_is_seen(k: Knobs, remaining: int)
    requires
        k.feasible(),
    ensures
        remaining > k.ya * MINUTE <==> band_of(k, remaining) == Band::Green,
        k.ra * MINUTE < remaining <= k.ya * MINUTE <==> band_of(k, remaining) == Band::Yellow,
        k.fra * MINUTE < remaining <= k.ra * MINUTE <==> band_of(k, remaining) == Band::Red,
        remaining <= k.fra * MINUTE <==> band_of(k, remaining) == Band::FastRed,
{
}

/// The breathing stays gentle and never goes dark: no channel is brighter than
/// the peak, blue stays off, and one channel is at the floor or above.
pub proof fn law_breathing_never_goes_dark(b: Band, elapsed: int, c: int)
    requires
        is_cosine(c),
    ensures
        ({
            let x = color_of(b, elapsed, c);
            &&& x.r <= BREATHE_PEAK && x.g <= BREATHE_PEAK && x.b == 0
            &&& if b == Band::Green {
                x.g >= BREATHE_FLOOR && x.r == 0
            } else {
                x.r >= BREATHE_FLOOR && x.g <= x.r
            }
        }),
{
    law_breath_stays_in_range(c, BREATHE_FLOOR as int, BREATHE_PEAK as int);
}

/// The fade starts at white, only ever loses red and blue, and ends without them.
pub proof fn law_fade_only_loses_white(t1: int, t2: int)
    requires
        0 <= t1 <= t2,
    ensures
        fade_level(0) == BREATHE_PEAK,
        0 <= fade_level(t2) <= fade_level(t1) <= BREATHE_PEAK,
        t1 >= SPINNER_FADE_DURATION ==> fade_level(t1) == 0,
{
}

/// The breathing takes over from the fade without a jump: at the instant at which
/// the active phase begins, the green breath is half a turn in, and with the
/// cosine of half a turn, minus one, its colour is the one that the fade ends at.
pub proof fn law_breathing_takes_over(k: Knobs, start: u64)
    requires
        k.runnable(),
        k.run_before_shutdown_us() > k.ya * MINUTE,
    ensures
        ({
            let ctx = Ctx { active_start: Some(start) };
            let t = SPINNER_FADE_DURATION as int;
            &&& activity_angle(During::BreatheColor, k, ctx, start as int, 0) matches Some(a) && 2
                * a.part == a.whole
            &&& color_of(band_at(k, ctx, start as int), 0, -UNIT) == rgb(0, BREATHE_PEAK as int, 0)
            &&& activity_color(During::BreatheColor, k, ctx, start as int, 0, -UNIT)
                == activity_color(During::FadeToGreen, k, ctx, start as int, t, -UNIT)
        }),
{
    law_breath_stays_in_range(-UNIT, BREATHE_FLOOR as int, BREATHE_PEAK as int);
}

// ---------------------------------------------------------------------------
// Light scripts.
// ---------------------------------------------------------------------------

/// The colour last painted by `steps`; none if they paint nothing.
pub open spec fn shown(steps: Seq<LedStep>) -> Option<Rgb>
    decreases steps.len(),
{
    if steps.len() == 0 {
        None
    } else {
        match steps.last() {
            LedStep::Paint(c) => Some(c),
            _ => shown(steps.drop_last()),
        }
    }
}

/// The power-on sweep: supply on, then red, green and blue in turn, then dark.
pub fn boot_sweep() -> (r: [LedStep; 9])
    ensures
        r@ == seq![
            LedStep::Power(true),
            LedStep::Wait(LED_POWER_UP),
            LedStep::Paint(rgb(BREATHE_PEAK as int, 0, 0)),
            LedStep::Wait(BOOT_SWEEP_STEP),
            LedStep::Paint(rgb(0, BREATHE_PEAK as int, 0)),
            LedStep::Wait(BOOT_SWEEP_STEP),
            LedStep::Paint(rgb(0, 0, BREATHE_PEAK as int)),
            LedStep::Wait(BOOT_SWEEP_STEP),
            LedStep::Paint(rgb(0, 0, 0)),
        ],
        shown(r@) == Some(rgb(0, 0, 0)),
{
    let r = [
        LedStep::Power(true),
        LedStep::Wait(LED_POWER_UP),
        LedStep::Paint(Rgb { r: BREATHE_PEAK, g: 0, b: 0 }),
        LedStep::Wait(BOOT_SWEEP_STEP),
        LedStep::Paint(Rgb { r: 0, g: BREATHE_PEAK, b: 0 }),
        LedStep::Wait(BOOT_SWEEP_STEP),
        LedStep::Paint(Rgb { r: 0, g: 0, b: BREATHE_PEAK }),
        LedStep::Wait(BOOT_SWEEP_STEP),
        LedStep::Paint(Rgb { r: 0, g: 0, b: 0 }),
    ];
    assert(r@.last() == LedStep::Paint(rgb(0, 0, 0)));
    r
}

/// Step `i` of the power-down flashes.
pub open spec fn flash_step(i: int) -> LedStep {
    if i % 4 == 0 {
        LedStep::Paint(rgb(0, BREATHE_PEAK as int, 0))
    } else if i % 4 == 2 {
        LedStep::Paint(rgb(0, 0, 0))
    } else {
        LedStep::Wait(SHUTDOWN_FLASH_STEP)
    }
}

/// The power-down flashes: three times green and dark.
pub fn shutdown_flashes() -> (r: Vec<LedStep>)
    ensures
        r@ == Seq::new(12, |i: int| flash_step(i)),
        shown(r@) == Some(rgb(0, 0, 0)),
{
    let mut r: Vec<LedStep> = Vec::new();
    for n in 0..3
        invariant
            r@ == Seq::new((4 * n) as nat, |i: int| flash_step(i)),
    {
        r.push(LedStep::Paint(Rgb { r: 0, g: BREATHE_PEAK, b: 0 }));
        r.push(LedStep::Wait(SHUTDOWN_FLASH_STEP));
        r.push(LedStep::Paint(Rgb { r: 0, g: 0, b: 0 }));
        r.push(LedStep::Wait(SHUTDOWN_FLASH_STEP));
        assert(r@ =~= Seq::new((4 * (n + 1)) as nat, |i: int| flash_step(i)));
    }
    proof {
        reveal_with_fuel(shown, 3);
        assert(r@.last() == flash_step(11));
        assert(r@.drop_last().last() == flash_step(10));
    }
    r
}

/// The last thing the device does: the LED's supply goes off.
pub fn power_off_neo() -> (r: LedStep)
    ensures
        r == LedStep::Power(false),
{
    LedStep::Power(false)
}

// ---------------------------------------------------------------------------
// What the LED tells.
// ---------------------------------------------------------------------------

/// The look is told by the time to go, in minutes of sixty million microseconds,
/// whatever the order of the thresholds: green above the first, yellow above the
/// second, red above the third, and fast red for the rest.
pub proof fn law_look_is_told_by_the_time_to_go(k: Knobs, remaining: int)
    ensures
        ({
            let yellow = k.ya * 60_000_000;
            let red = k.ra * 60_000_000;
            let fast = k.fra * 60_000_000;
            &&& remaining > yellow <==> band_of(k, remaining) is Green
            &&& remaining <= yellow && remaining > red <==> band_of(k, remaining) is Yellow
            &&& remaining <= yellow && remaining <= red && remaining > fast <==> band_of(
                k,
                remaining,
            ) is Red
            &&& remaining <= yellow && remaining <= red && remaining <= fast <==> band_of(
                k,
                remaining,
            ) is FastRed
        }),
{
}

/// The look at an instant is that of what the active phase has left then; before
/// the active phase, that of its whole run.
pub proof fn law_look_counts_down_the_run(k: Knobs, ctx: Ctx, now: int)
    requires
        k.rt >= 1,
        ctx.active_start matches Some(s) ==> s <= now,
    ensures
        ({
            let run = k.rt * 60_000_000 - 30_000_000;
            match ctx.active_start {
                Some(s) => {
                    &&& now - s <= run ==> band_at(k, ctx, now) == band_of(k, run - (now - s))
                    &&& now - s >= run ==> band_at(k, ctx, now) == band_of(k, 0)
                    &&& into_active(ctx, now) == now - s
                },
                None => band_at(k, ctx, now) == band_of(k, run) && into_active(ctx, now) == 0,
            }
        }),
{
}

/// Each look has its own colour. Green shows green alone; yellow as much red as
/// its breath and half as much green; both reds show red alone, so that the
/// colour changes from yellow to red at every brightness above the faintest. The
/// fast red shows nothing between its floor and its peak.
pub proof fn law_looks_have_their_colours(elapsed: int, c: int)
    requires
        is_cosine(c),
    ensures
        ({
            let level = breath_level(c, 1, 16);
            let green = color_of(Band::Green, elapsed, c);
            let yellow = color_of(Band::Yellow, elapsed, c);
            let red = color_of(Band::Red, elapsed, c);
            let fast = color_of(Band::FastRed, elapsed, c);
            &&& green.r == 0 && green.g == level && green.b == 0
            &&& yellow.r == level && yellow.g == yellow.r / 2 && yellow.b == 0
            &&& red.r == level && red.g == 0 && red.b == 0
            &&& fast.g == 0 && fast.b == 0 && (fast.r == 1 || fast.r == 16)
            &&& level > 1 ==> yellow != red
            &&& green != yellow && green != red && green != fast
        }),
{
    law_breath_stays_in_range(c, 1, 16);
}

/// The fast red alone does not breathe: its colour goes by the time, full for a
/// quarter of a second and faint for the next; the others go by the breath alone.
pub proof fn law_only_fast_red_blinks(b: Band, e1: int, e2: int, c1: int, c2: int)
    requires
        e1 >= 0,
        e2 >= 0,
        is_cosine(c1),
        is_cosine(c2),
    ensures
        b is FastRed ==> color_of(b, e1, c1) == color_of(b, e1, c2),
        b is FastRed ==> (color_of(b, e1, c1).r == 16 <==> e1 % 500_000 < 250_000),
        !(b is FastRed) ==> color_of(b, e1, c1) == color_of(b, e2, c1),
{
    law_blink_is_half_and_half(250, e1);
}

/// A blink is on for the first half of every period, to the microsecond, where
/// the half is of whole milliseconds.
pub proof fn law_blink_is_half_and_half(half_ms: int, t: int)
    requires
        half_ms >= 1,
        t >= 0,
    ensures
        is_on(2 * half_ms * 1000, t) <==> t % (2 * half_ms * 1000) < half_ms * 1000,
{
    let p = 2 * half_ms;
    let ms = t / 1000;
    let q = ms / p;
    let rest = ms % p;
    assert((2 * half_ms * 1000) / 1000 == p);
    vstd::arithmetic::div_mod::lemma_fundamental_div_mod(ms, p);
    vstd::arithmetic::div_mod::lemma_mod_bound(ms, p);
    let r = rest * 1000 + t % 1000;
    assert(t == q * (p * 1000) + r) by (nonlinear_arith)
        requires
            ms == p * q + rest,
            t == ms * 1000 + t % 1000,
            r == rest * 1000 + t % 1000,
    ;
    assert(0 <= r < p * 1000);
    vstd::arithmetic::div_mod::lemma_fundamental_div_mod_converse(t, p * 1000, q, r);
}

/// A breath's brightness is the whole step at or below the point on its scale: it
/// rises as the cosine falls, over the whole of its range.
pub proof fn law_breath_rises_as_the_cosine_falls(c: int, d: int, floor: int, peak: int)
    requires
        is_cosine(c),
        is_cosine(d),
        floor <= peak,
    ensures
        ({
            let span = peak - floor;
            let rise = breath_level(c, floor, peak) - floor;
            &&& rise * 2_147_483_648 <= (1_073_741_824 - c) * span
            &&& (1_073_741_824 - c) * span < (rise + 1) * 2_147_483_648
            &&& c <= d ==> breath_level(c, floor, peak) >= breath_level(d, floor, peak)
        }),
{
    let span = peak - floor;
    let x = (1_073_741_824 - c) * span;
    let y = (1_073_741_824 - d) * span;
    assert(UNIT == 1_073_741_824);
    assert(crate::config::minus(peak, floor) == span);
    assert(breath_level(c, floor, peak) == floor + x / 2_147_483_648);
    assert(breath_level(d, floor, peak) == floor + y / 2_147_483_648);
    if c <= d {
        assert(x >= y) by (nonlinear_arith)
            requires
                x == (1_073_741_824 - c) * span,
                y == (1_073_741_824 - d) * span,
                c <= d,
                span >= 0,
        ;
    }
}

/// A breath whose peak is below its floor rests at its floor.
pub proof fn law_breath_without_room_rests(c: int, floor: int, peak: int)
    requires
        peak <= floor,
    ensures
        breath_level(c, floor, peak) == floor,
{
    assert((UNIT - c) * 0 == 0);
}

/// The angle of a breath goes once round in each period, in steps of a
/// millisecond, from its start.
pub proof fn law_angle_goes_round(period_ms: int, t: int)
    requires
        1 <= period_ms <= 1_000_000_000,
        t >= 0,
    ensures
        angle_of(period_ms * 1000, t).whole == period_ms,
        angle_of(period_ms * 1000, t + period_ms * 1000) == angle_of(period_ms * 1000, t),
        t < period_ms * 1000 ==> angle_of(period_ms * 1000, t).part == t / 1000,
        angle_of(period_ms * 1000, t).part < period_ms,
{
    assert((t + period_ms * 1000) / 1000 == t / 1000 + period_ms);
    assert((period_ms * 1000) / 1000 == period_ms);
    vstd::arithmetic::div_mod::lemma_mod_add_multiples_vanish(t / 1000, period_ms);
    vstd::arithmetic::div_mod::lemma_mod_bound(t / 1000, period_ms);
    if t < period_ms * 1000 {
        vstd::arithmetic::div_mod::lemma_small_mod((t / 1000) as nat, period_ms as nat);
    }
}

/// The looks breathe ever faster: green in four seconds, yellow in three, red in
/// two, and fast red blinks twice a second.
pub proof fn law_looks_quicken()
    ensures
        period_of(Band::Green) == 4_000_000,
        period_of(Band::Yellow) == 3_000_000,
        period_of(Band::Red) == 2_000_000,
        period_of(Band::FastRed) == 500_000,
{
}

/// The looks breathe by the time since the active phase began, the green one half
/// a period ahead; before the active phase they do not move.
pub proof fn law_looks_breathe_by_the_active_clock(b: Band, s: u64, now: int)
    requires
        s <= now,
    ensures
        ({
            let ctx = Ctx { active_start: Some(s) };
            let t = now - s;
            &&& look_angle(Band::Green, ctx, now) == angle_of(4_000_000, t + 2_000_000)
            &&& look_angle(Band::Yellow, ctx, now) == angle_of(3_000_000, t)
            &&& look_angle(Band::Red, ctx, now) == angle_of(2_000_000, t)
            &&& look_angle(b, Ctx { active_start: None }, now) == look_angle(
                b,
                Ctx { active_start: None },
                0,
            )
            &&& look_angle(b, Ctx { active_start: None }, now).part == 0
        }),
{
}

/// What each activity of the LED shows, and what it goes by. The pulses, blue in
/// 0.8 and white in 1.2 seconds, and the fade and the closing blink go by the time
/// since they began; the breathing by the active clock.
pub proof fn law_activities_show_what_they_should(
    k: Knobs,
    ctx: Ctx,
    now: int,
    t: int,
    c: int,
)
    requires
        is_cosine(c),
        t >= 0,
    ensures
        ({
            let level = breath_level(c, 1, 16);
            let blue = activity_color(During::PulseBlue, k, ctx, now, t, c);
            let white = activity_color(During::PulseWhite, k, ctx, now, t, c);
            let fade = activity_color(During::FadeToGreen, k, ctx, now, t, c);
            let blink = activity_color(During::BlinkFastRed, k, ctx, now, t, c);
            &&& blue == Some(Rgb { r: 0, g: 0, b: level as u8 })
            &&& white == Some(Rgb { r: level as u8, g: level as u8, b: level as u8 })
            &&& fade matches Some(x) && x.g == 16 && x.r == x.b && x.r == fade_level(t)
            &&& blink matches Some(x) && x.g == 0 && x.b == 0 && x.r == (if t % 500_000 < 250_000 {
                16int
            } else {
                1int
            })
            &&& activity_color(During::BreatheColor, k, ctx, now, t, c) == Some(
                color_of(band_at(k, ctx, now), into_active(ctx, now), c),
            )
            &&& activity_angle(During::PulseBlue, k, ctx, now, t) == Some(angle_of(800_000, t))
            &&& activity_angle(During::PulseWhite, k, ctx, now, t) == Some(angle_of(1_200_000, t))
            &&& activity_angle(During::BreatheColor, k, ctx, now, t) == (if band_at(
                k,
                ctx,
                now,
            ) is FastRed {
                None
            } else {
                Some(look_angle(band_at(k, ctx, now), ctx, now))
            })
            &&& activity_angle(During::FadeToGreen, k, ctx, now, t) is None
            &&& activity_angle(During::BlinkFastRed, k, ctx, now, t) is None
        }),
{
    law_breath_stays_in_range(c, 1, 16);
    law_blink_is_half_and_half(250, t);
}

/// The fade is a straight line over six hundred milliseconds: red and blue are the
/// whole step at or below it.
pub proof fn law_fade_is_straight(t: int)
    requires
        t >= 0,
    ensures
        ({
            let ms = t / 1000;
            let level = fade_level(t);
            &&& ms <= 600 ==> level * 600 <= 16 * (600 - ms) < (level + 1) * 600
            &&& ms >= 600 ==> level == 0
        }),
{
}

/// The closing flashes are green and dark in turn, each for four tenths of a
/// second.
pub proof fn law_flashes_take_turns(n: int)
    requires
        n >= 0,
    ensures
        flash_step(4 * n) == LedStep::Paint(Rgb { r: 0, g: 16, b: 0 }),
        flash_step(4 * n + 1) == LedStep::Wait(400_000),
        flash_step(4 * n + 2) == LedStep::Paint(Rgb { r: 0, g: 0, b: 0 }),
        flash_step(4 * n + 3) == LedStep::Wait(400_000),
{
}

} // verus!
