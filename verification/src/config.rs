//! Every tuning number of the device in one place: timing, geometry and
//! brightness. Times are microseconds unless a name says otherwise.
use vstd::prelude::*;

verus! {

/// One second.
pub const SECOND: u64 = 1_000_000;

/// One minute.
pub const MINUTE: u64 = 60_000_000;

/// Sines, cosines, shares and parts of a pixel are counted in this many parts of
/// one.
pub const UNIT: i64 = 1_073_741_824;

// Lifecycle timing.
/// How long before the end of a cycle the closing animation starts.
pub const SHUTDOWN_LEAD: u64 = 30_000_000;

/// Time set aside for the closing spiral.
pub const SHUTDOWN_ANIM_BUDGET: u64 = 5_000_000;

/// Silence between the closing spiral and power-down: what is left of
/// `SHUTDOWN_LEAD` once `SHUTDOWN_ANIM_BUDGET` is spent.
pub const QUIET_AFTER_ANIM: u64 = 25_000_000;

/// Time between two jiggles (four and a half minutes).
pub const JIGGLE_PERIOD: u64 = 270_000_000;

/// How long the LED stays white after a jiggle.
pub const FLASH_DURATION: u64 = 100_000;

/// How long before the closing animation the first warning spiral fires.
pub const WARN_10_LEAD: u64 = 600_000_000;

/// How long before the closing animation the second warning spiral fires.
pub const WARN_5_LEAD: u64 = 300_000_000;

// LED breathing.
pub const LED_TICK: u64 = 20_000;

pub const SLOW_GREEN_PERIOD: u64 = 4_000_000;

pub const YELLOW_PERIOD: u64 = 3_000_000;

pub const RED_PERIOD: u64 = 2_000_000;

pub const FAST_RED_PERIOD: u64 = 500_000;

pub const WAKING_PULSE_PERIOD: u64 = 800_000;

pub const SETTLING_PULSE_PERIOD: u64 = 1_200_000;

pub const SPINNER_FADE_DURATION: u64 = 600_000;

// LED brightness (raw WS2812 PWM, 0..=255).
pub const BREATHE_FLOOR: u8 = 1;

pub const BREATHE_PEAK: u8 = 16;

pub const FLASH_PEAK: u8 = 160;

// Cursor animations.
pub const ANIM_FRAME: u64 = 8_000;

pub const WAKE_OSCILLATIONS: u32 = 10;

pub const WAKE_FRAMES_PER_HALF: u32 = 4;

/// Half-width of the wake-up shake, in pixels.
pub const WAKE_AMPLITUDE: u16 = 60;

/// Largest vertical wobble of the wake-up shake, in pixels.
pub const WAKE_JITTER: u16 = 1;

/// Pause after the shake so the display can come up before the spinner.
pub const SETTLING_DELAY: u64 = 2_000_000;

/// Radius of the spinner circles, in pixels.
pub const RUN_RADIUS: u16 = 40;

pub const RUN_FRAMES_PER_CIRCLE: u32 = 25;

pub const RUN_CIRCLES: u32 = 3;

/// The spirals ease with `t` raised to `EASE_POW_NUM / EASE_POW_DEN`.
pub const EASE_POW_NUM: u32 = 5;

pub const EASE_POW_DEN: u32 = 2;

/// Radius, in pixels, at which every spiral ends.
pub const SPIRAL_RADIUS_END: u16 = 2;

pub const FINAL_SPIRAL_RADIUS_START: u16 = 80;

pub const FINAL_SPIRAL_TURNS: u32 = 5;

pub const FINAL_SPIRAL_FRAMES: u32 = 625;

pub const WARN5_RADIUS_START: u16 = 50;

pub const WARN5_TURNS: u32 = 3;

pub const WARN5_FRAMES: u32 = 312;

pub const WARN10_RADIUS_START: u16 = 30;

pub const WARN10_TURNS: u32 = 2;

pub const WARN10_FRAMES: u32 = 187;

// Waking the host with the keyboard.
pub const KBD_WAKE_TAPS: u32 = 4;

pub const KBD_TAP_HOLD: u64 = 30_000;

pub const KBD_TAP_GAP: u64 = 50_000;

/// Hard limit on the taps, should a USB write block.
pub const KBD_WAKE_DEADLINE: u64 = 500_000;

/// Time the chart spends waking the host by keyboard.
pub const KBD_PHASE_DURATION: u64 = 550_000;

/// HID usage of F13, a key that no mainstream system maps.
pub const KBD_KEY_F13: u8 = 0x68;

/// Hard limit on the closing all-keys-released report.
pub const KBD_RELEASE_DEADLINE: u64 = 100_000;

// Waking the host with the mouse.
/// Hard limit on the shake, should a USB write block.
pub const MOUSE_WAKE_DEADLINE: u64 = 1_000_000;

/// Time the chart spends waking the host by mouse.
pub const MOUSE_PHASE_DURATION: u64 = 1_050_000;

/// Limit on any single HID report write.
pub const HID_WRITE_TIMEOUT: u64 = 3_000_000;

// Watchdog.
pub const WATCHDOG_TIMEOUT: u64 = 8_000_000;

pub const WATCHDOG_FEED_INTERVAL: u64 = 5_000_000;

/// Rest between the two halves of a jiggle.
pub const PIXEL_DWELL: u64 = 25_000;

/// Settling time of the LED supply at power-on.
pub const LED_POWER_UP: u64 = 2_000;

pub const BOOT_SWEEP_STEP: u64 = 60_000;

pub const SHUTDOWN_FLASH_STEP: u64 = 400_000;

/// The four knobs of a cycle, in minutes: how long it runs, and how many
/// minutes before its end the LED turns yellow, red and fast red.
#[derive(Debug, Clone, Copy, PartialEq, Eq, Structural)]
pub struct Knobs {
    pub rt: i32,
    pub ya: i32,
    pub ra: i32,
    pub fra: i32,
}

/// `a - b`, or zero where that would be negative.
pub open spec fn minus(a: int, b: int) -> int {
    if a >= b {
        a - b
    } else {
        0
    }
}

impl Knobs {
    /// The knobs a device can run on: no negative time.
    pub open spec fn runnable(self) -> bool {
        self.rt >= 0 && self.ya >= 0 && self.ra >= 0 && self.fra >= 0
    }

    /// The order the LED phases need: yellow before red before fast red, and
    /// fast red before the end.
    pub open spec fn feasible(self) -> bool {
        self.ya > self.ra && self.ra > self.fra && self.fra > 0
    }

    /// Microseconds from entering the active phase to the closing animation.
    pub open spec fn run_before_shutdown_us(self) -> int {
        minus(self.rt * MINUTE as int, SHUTDOWN_LEAD as int)
    }

    /// The knobs the firmware ships with: 3h51m, with yellow, red and fast red
    /// at 22, 11 and 4 minutes.
    pub fn shipping() -> (r: Knobs)
        ensures
            r == (Knobs { rt: 231, ya: 22, ra: 11, fra: 4 }),
            r.runnable(),
            r.feasible(),
    {
        Knobs { rt: 231, ya: 22, ra: 11, fra: 4 }
    }

    /// The four-hour cycle: 4h00m, with yellow, red and fast red at 30, 25 and
    /// 20 minutes.
    pub fn four_hours() -> (r: Knobs)
        ensures
            r == (Knobs { rt: 240, ya: 30, ra: 25, fra: 20 }),
            r.runnable(),
            r.feasible(),
    {
        Knobs { rt: 240, ya: 30, ra: 25, fra: 20 }
    }

    /// Whether the LED phases are in order.
    pub fn is_feasible(&self) -> (r: bool)
        ensures
            r == self.feasible(),
    {
        self.ya > self.ra && self.ra > self.fra && self.fra > 0
    }

    /// Length of one whole cycle.
    pub fn run_duration(&self) -> (r: u64)
        requires
            self.runnable(),
        ensures
            r == self.rt * MINUTE,
    {
        self.rt as u64 * MINUTE
    }

    /// Time from entering the active phase to the closing animation.
    pub fn run_before_shutdown(&self) -> (r: u64)
        requires
            self.runnable(),
        ensures
            r == self.run_before_shutdown_us(),
    {
        self.run_duration().saturating_sub(SHUTDOWN_LEAD)
    }

    /// Time from entering the active phase to the first warning spiral.
    pub fn warn_10_at(&self) -> (r: u64)
        requires
            self.runnable(),
        ensures
            r == minus(self.run_before_shutdown_us(), WARN_10_LEAD as int),
    {
        self.run_before_shutdown().saturating_sub(WARN_10_LEAD)
    }

    /// Time from entering the active phase to the second warning spiral.
    pub fn warn_5_at(&self) -> (r: u64)
        requires
            self.runnable(),
        ensures
            r == minus(self.run_before_shutdown_us(), WARN_5_LEAD as int),
    {
        self.run_before_shutdown().saturating_sub(WARN_5_LEAD)
    }

    /// Time remaining at which the LED turns yellow.
    pub fn yellow_at(&self) -> (r: u64)
        requires
            self.runnable(),
        ensures
            r == self.ya * MINUTE,
    {
        self.ya as u64 * MINUTE
    }

    /// Time remaining at which the LED turns red.
    pub fn red_at(&self) -> (r: u64)
        requires
            self.runnable(),
        ensures
            r == self.ra * MINUTE,
    {
        self.ra as u64 * MINUTE
    }

    /// Time remaining at which the LED starts its fast red blink.
    pub fn fast_red_at(&self) -> (r: u64)
        requires
            self.runnable(),
        ensures
            r == self.fra * MINUTE,
    {
        self.fra as u64 * MINUTE
    }
}

/// A cycle adds up: the active phase, the closing animation and the silence
/// after it fill the run duration exactly, for every cycle of a minute or more.
pub proof fn law_cycle_adds_up(k: Knobs)
    requires
        k.rt >= 1,
    ensures
        k.run_before_shutdown_us() + SHUTDOWN_ANIM_BUDGET + QUIET_AFTER_ANIM == k.rt * MINUTE,
{
}

/// The warnings come in order, ten and five minutes before the closing
/// animation, in every cycle long enough to hold them.
pub proof fn law_warnings_in_order(k: Knobs)
    requires
        k.rt >= 11,
    ensures
        minus(k.run_before_shutdown_us(), WARN_10_LEAD as int) + 10 * MINUTE
            == k.run_before_shutdown_us(),
        minus(k.run_before_shutdown_us(), WARN_5_LEAD as int) + 5 * MINUTE
            == k.run_before_shutdown_us(),
        minus(k.run_before_shutdown_us(), WARN_10_LEAD as int) < minus(
            k.run_before_shutdown_us(),
            WARN_5_LEAD as int,
        ) < k.run_before_shutdown_us(),
{
}

/// A cycle's run, and the marks in it, in microseconds: sixty million to the
/// minute, the closing animation thirty seconds before the end, the warnings ten
/// and five minutes before that, and never a negative time.
pub proof fn law_run_is_counted_in_microseconds(k: Knobs)
    ensures
        k.rt >= 1 ==> k.run_before_shutdown_us() == 60_000_000 * k.rt - 30_000_000,
        k.rt <= 0 ==> k.run_before_shutdown_us() == 0,
        k.rt >= 11 ==> minus(k.run_before_shutdown_us(), WARN_10_LEAD as int) == 60_000_000 * k.rt
            - 630_000_000,
        k.rt >= 6 ==> minus(k.run_before_shutdown_us(), WARN_5_LEAD as int) == 60_000_000 * k.rt
            - 330_000_000,
{
}

/// A difference stops at zero.
pub proof fn law_minus_stops_at_zero(a: int, b: int)
    ensures
        minus(a, b) >= 0,
        minus(a, b) >= a - b,
        minus(a, b) == 0 || minus(a, b) == a - b,
{
}

/// A device can run on any knobs without a negative time.
pub proof fn law_runnable_is_no_negative_time(k: Knobs)
    ensures
        k.runnable() <==> !(k.rt < 0 || k.ya < 0 || k.ra < 0 || k.fra < 0),
{
}

} // verus!
