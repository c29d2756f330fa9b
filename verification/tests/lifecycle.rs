use jiggly::chart::{Action, Ctx, During, Ev, Jiggly, JigglyState, Timer, QUEUE_CAPACITY};
use jiggly::config::{Knobs, MINUTE, SECOND};

/// A driver without a device: every activity takes the time of its frames.
struct Bench {
    chart: Jiggly,
    now: u64,
    log: Vec<(u64, JigglyState)>,
    done: Vec<(u64, Action)>,
}

impl Bench {
    fn new(knobs: Knobs) -> Bench {
        let mut b = Bench { chart: Jiggly::new(knobs, 0), now: 0, log: Vec::new(), done: Vec::new() };
        b.turn(None);
        b
    }

    fn state(&self) -> JigglyState {
        self.chart.current_state().unwrap()
    }

    fn turn(&mut self, e: Option<Ev>) -> Vec<Action> {
        let acts = self.chart.advance(self.now, e);
        for a in &acts {
            self.done.push((self.now, *a));
        }
        let s = self.state();
        if self.log.last().map(|l| l.1) != Some(s) {
            self.log.push((self.now, s));
        }
        acts
    }

    fn after(&mut self, t: u64, e: Option<Ev>) -> Vec<Action> {
        self.now += t;
        self.turn(e)
    }

    /// Lets the chart run by itself until it rests for good.
    fn run(&mut self) {
        let mut report: Option<(u64, Ev)> = self.next_report();
        loop {
            let before = self.log.len();
            if self.chart.has_pending_events() {
                self.turn(None);
            } else {
                let timer = self.chart.min_remaining().map(|m| self.now + m);
                match (timer, report) {
                    (None, None) => return,
                    (Some(t), Some((r, e))) if r <= t => {
                        self.now = r;
                        self.turn(Some(e));
                    }
                    (Some(t), _) => {
                        self.now = t;
                        self.turn(None);
                    }
                    (None, Some((r, e))) => {
                        self.now = r;
                        self.turn(Some(e));
                    }
                }
            }
            if self.log.len() != before {
                report = self.next_report();
            }
        }
    }

    fn next_report(&self) -> Option<(u64, Ev)> {
        for d in self.state().durings() {
            if let Some(e) = d.completion() {
                let t = match d {
                    During::BootSweep => 182_000,
                    During::AnimateSpinner => 75 * 8_000,
                    During::AnimateWarning10 => 187 * 8_000,
                    During::AnimateWarning5 => 312 * 8_000,
                    _ => 625 * 8_000,
                };
                return Some((self.now + t, e));
            }
        }
        None
    }

    fn first(&self, s: JigglyState) -> u64 {
        self.log.iter().find(|l| l.1 == s).unwrap().0
    }

    fn count(&self, a: Action) -> usize {
        self.done.iter().filter(|d| d.1 == a).count()
    }

    /// Goes straight to the breathing state.
    fn breathing(knobs: Knobs) -> Bench {
        let mut b = Bench::new(knobs);
        b.after(182_000, Some(Ev::BootDone));
        b.after(550_000, None);
        b.after(1_050_000, None);
        b.after(2 * SECOND, None);
        b.after(600_000, Some(Ev::SpinDone));
        assert_eq!(b.state(), JigglyState::Breathing);
        b
    }
}

#[test]
fn boots_wakes_settles_and_spins() {
    let mut b = Bench::new(Knobs::shipping());
    assert_eq!(b.state(), JigglyState::Booting);
    assert_eq!(b.after(182_000, Some(Ev::BootDone)), vec![Action::KeyboardWake]);
    assert_eq!(b.state(), JigglyState::WakingWithKeyboard);
    assert_eq!(b.after(549_999, None), vec![]);
    assert_eq!(b.state(), JigglyState::WakingWithKeyboard);
    assert_eq!(b.after(1, None), vec![Action::MouseWake]);
    assert_eq!(b.state(), JigglyState::WakingWithMouse);
    assert_eq!(b.after(1_050_000, None), vec![]);
    assert_eq!(b.state(), JigglyState::Settling);
    assert_eq!(b.after(2 * SECOND, None), vec![]);
    assert_eq!(b.state(), JigglyState::Spinning);
    assert_eq!(b.chart.min_remaining(), None);
    assert_eq!(b.after(600_000, Some(Ev::SpinDone)), vec![Action::CaptureActiveStart]);
    assert_eq!(b.state(), JigglyState::Breathing);
    assert_eq!(b.chart.min_remaining(), Some(270 * SECOND));
}

#[test]
fn a_shipping_cycle_keeps_its_times() {
    let mut b = Bench::new(Knobs::shipping());
    b.run();
    let start = b.first(JigglyState::Breathing);
    assert_eq!(start, 182_000 + 550_000 + 1_050_000 + 2_000_000 + 600_000);
    assert_eq!(b.first(JigglyState::Warning10) - start, 13_230 * SECOND);
    assert_eq!(b.first(JigglyState::Warning5) - start, 13_530 * SECOND);
    assert_eq!(b.first(JigglyState::Spiraling) - start, 13_830 * SECOND);
    assert_eq!(b.first(JigglyState::Quiet) - start, 13_835 * SECOND);
    assert_eq!(b.first(JigglyState::PoweringDown) - start, 231 * MINUTE);
    assert_eq!(b.count(Action::JigglePair), 51);
    assert_eq!(b.count(Action::CaptureActiveStart), 1);
    assert_eq!(b.state(), JigglyState::PoweringDown);
    let n = b.done.len();
    assert_eq!(b.done[n - 2].1, Action::ShutdownFlashes);
    assert_eq!(b.done[n - 1].1, Action::PowerOffNeo);
    assert!(!b.chart.take_overflow());
}

#[test]
fn a_four_hour_cycle_keeps_its_times() {
    let mut b = Bench::new(Knobs::four_hours());
    b.run();
    let start = b.first(JigglyState::Breathing);
    assert_eq!(b.first(JigglyState::Warning10) - start, 240 * MINUTE - 30 * SECOND - 10 * MINUTE);
    assert_eq!(b.first(JigglyState::Warning5) - start, 240 * MINUTE - 30 * SECOND - 5 * MINUTE);
    assert_eq!(b.first(JigglyState::Spiraling) - start, 240 * MINUTE - 30 * SECOND);
    assert_eq!(b.first(JigglyState::PoweringDown) - start, 240 * MINUTE);
    assert_eq!(b.count(Action::JigglePair), 53);
}

#[test]
fn phases_come_in_order() {
    let mut b = Bench::new(Knobs::shipping());
    b.run();
    let order = [
        JigglyState::Booting,
        JigglyState::WakingWithKeyboard,
        JigglyState::WakingWithMouse,
        JigglyState::Settling,
        JigglyState::Spinning,
        JigglyState::Breathing,
        JigglyState::Flashing,
        JigglyState::Warning10,
        JigglyState::Warning5,
        JigglyState::Spiraling,
        JigglyState::Quiet,
        JigglyState::PoweringDown,
    ];
    for w in order.windows(2) {
        assert!(b.first(w[0]) < b.first(w[1]) || w[0] == JigglyState::Breathing);
    }
}

#[test]
fn jiggles_are_a_period_apart_and_flash() {
    let mut b = Bench::new(Knobs::shipping());
    b.run();
    let start = b.first(JigglyState::Breathing);
    let mut n = 0;
    for (t, a) in &b.done {
        if *a == Action::JigglePair {
            n += 1;
            assert_eq!(*t - start, n * 270 * SECOND);
        }
    }
    // The 49th meets the first warning, which goes first: its flash is dropped.
    assert_eq!(b.count(Action::PaintWhite), 50);
}

#[test]
fn flash_lasts_its_time() {
    let mut b = Bench::breathing(Knobs::shipping());
    assert_eq!(b.after(270 * SECOND, None), vec![Action::JigglePair]);
    assert_eq!(b.state(), JigglyState::Breathing);
    assert!(b.chart.has_pending_events());
    assert_eq!(b.after(50_000, None), vec![Action::PaintWhite]);
    assert_eq!(b.state(), JigglyState::Flashing);
    assert_eq!(b.after(99_999, None), vec![]);
    assert_eq!(b.state(), JigglyState::Flashing);
    assert_eq!(b.after(1, None), vec![]);
    assert_eq!(b.state(), JigglyState::Breathing);
}

#[test]
fn deeper_timer_fires_first() {
    let mut b = Bench::breathing(Knobs::shipping());
    b.after(270 * SECOND, None);
    b.after(0, None);
    assert_eq!(b.state(), JigglyState::Flashing);
    // Both the flash and the next jiggle are due; the flash's state is deeper.
    assert_eq!(b.after(270 * SECOND, None), vec![]);
    assert_eq!(b.state(), JigglyState::Breathing);
    assert_eq!(b.after(0, None), vec![Action::JigglePair]);
}

#[test]
fn timer_comes_before_event() {
    let mut b = Bench::new(Knobs::shipping());
    b.after(182_000, Some(Ev::BootDone));
    assert_eq!(b.after(550_000, Some(Ev::WarnDone)), vec![Action::MouseWake]);
    assert!(b.chart.has_pending_events());
    assert_eq!(b.after(0, None), vec![]);
    assert_eq!(b.state(), JigglyState::WakingWithMouse);
    assert!(!b.chart.has_pending_events());
}

#[test]
fn a_late_driver_catches_up_step_by_step() {
    let mut b = Bench::breathing(Knobs::shipping());
    b.now += 5 * 60 * MINUTE;
    // Jiggle, both warnings and the shutdown are due at once. The jiggle stands
    // first in the table; the shutdown, last, takes the place it leaves.
    assert_eq!(b.turn(None), vec![Action::JigglePair]);
    b.turn(None);
    assert_eq!(b.state(), JigglyState::Spiraling);
}

#[test]
fn an_expired_shutdown_ends_within_five_steps() {
    let mut b = Bench::breathing(Knobs::shipping());
    b.now += 5 * 60 * MINUTE;
    let mut steps = 0;
    while b.state() != JigglyState::Spiraling {
        b.turn(None);
        steps += 1;
        assert!(steps <= 5);
    }
}

#[test]
fn warning_returns_to_breathing_and_fires_once() {
    let mut b = Bench::breathing(Knobs::shipping());
    b.run();
    let tens = b.log.iter().filter(|l| l.1 == JigglyState::Warning10).count();
    let fives = b.log.iter().filter(|l| l.1 == JigglyState::Warning5).count();
    assert_eq!((tens, fives), (1, 1));
    let at = b.log.iter().position(|l| l.1 == JigglyState::Warning10).unwrap();
    assert_eq!(b.log[at + 1].1, JigglyState::Breathing);
    assert_eq!(b.log[at + 1].0 - b.log[at].0, 187 * 8_000);
}

#[test]
fn power_down_is_final() {
    let mut b = Bench::new(Knobs::shipping());
    b.run();
    for e in [Ev::BootDone, Ev::SpinDone, Ev::Jiggled, Ev::WarnDone, Ev::SpiralDone] {
        assert_eq!(b.after(MINUTE, Some(e)), vec![]);
        assert_eq!(b.state(), JigglyState::PoweringDown);
        assert_eq!(b.chart.min_remaining(), None);
    }
}

#[test]
fn reports_out_of_place_are_dropped() {
    let mut b = Bench::new(Knobs::shipping());
    for e in [Ev::SpinDone, Ev::Jiggled, Ev::WarnDone, Ev::SpiralDone] {
        assert_eq!(b.after(1, Some(e)), vec![]);
        assert_eq!(b.state(), JigglyState::Booting);
        assert!(!b.chart.has_pending_events());
    }
}

#[test]
fn full_queue_refuses_and_overflows() {
    let mut chart = Jiggly::new(Knobs::shipping(), 0);
    for _ in 0..QUEUE_CAPACITY {
        assert!(chart.send(Ev::WarnDone));
    }
    assert!(!chart.send(Ev::WarnDone));
    assert!(!chart.take_overflow());

    let mut b = Bench::breathing(Knobs::shipping());
    for _ in 0..QUEUE_CAPACITY {
        assert!(b.chart.send(Ev::SpinDone));
    }
    assert_eq!(b.after(270 * SECOND, None), vec![Action::JigglePair]);
    assert!(b.chart.take_overflow());
    assert!(!b.chart.take_overflow());
}

#[test]
fn step_and_advance_agree() {
    let mut a = Jiggly::new(Knobs::shipping(), 7);
    let mut c = Jiggly::new(Knobs::shipping(), 7);
    assert_eq!(a.advance(7, None), c.step(0));
    assert!(c.send(Ev::BootDone));
    assert_eq!(a.advance(12, Some(Ev::BootDone)), c.step(5));
    assert_eq!(a.current_state(), c.current_state());
    assert_eq!(a.min_remaining(), c.min_remaining());
}

#[test]
fn the_chart_is_nested_two_deep() {
    assert_eq!(JigglyState::Flashing.parent(), Some(JigglyState::Active));
    assert_eq!(JigglyState::Quiet.parent(), Some(JigglyState::Ending));
    assert_eq!(JigglyState::WakingWithMouse.parent(), Some(JigglyState::WakingHost));
    assert_eq!(JigglyState::Settling.parent(), None);
    assert_eq!(JigglyState::WakingHost.default_child(), Some(JigglyState::WakingWithKeyboard));
    assert_eq!(JigglyState::Active.default_child(), Some(JigglyState::Breathing));
    assert_eq!(JigglyState::Ending.default_child(), Some(JigglyState::Spiraling));
    assert_eq!(JigglyState::Breathing.default_child(), None);
    assert!(JigglyState::Active.is_on_path(JigglyState::Warning5));
    assert!(!JigglyState::Active.is_on_path(JigglyState::Quiet));
}

#[test]
fn activities_run_inner_before_outer() {
    assert_eq!(
        JigglyState::Spiraling.durings(),
        vec![During::AnimateFinalSpiral, During::BlinkFastRed]
    );
    assert_eq!(
        JigglyState::Spinning.durings(),
        vec![During::AnimateSpinner, During::FadeToGreen]
    );
    assert_eq!(JigglyState::WakingWithMouse.durings(), vec![During::PulseBlue]);
    assert_eq!(JigglyState::Quiet.durings(), vec![During::BlinkFastRed]);
    assert_eq!(JigglyState::Flashing.durings(), vec![]);
    assert_eq!(JigglyState::PoweringDown.durings(), vec![]);
}

#[test]
fn events_lead_where_they_should() {
    assert_eq!(JigglyState::Booting.handler(Ev::BootDone), Some(JigglyState::WakingHost));
    assert_eq!(JigglyState::Spinning.handler(Ev::SpinDone), Some(JigglyState::Active));
    assert_eq!(JigglyState::Breathing.handler(Ev::Jiggled), Some(JigglyState::Flashing));
    assert_eq!(JigglyState::Warning10.handler(Ev::Jiggled), None);
    assert_eq!(JigglyState::Warning5.handler(Ev::WarnDone), Some(JigglyState::Breathing));
    assert_eq!(JigglyState::Spiraling.handler(Ev::SpiralDone), Some(JigglyState::Quiet));
}

#[test]
fn timers_have_owners_and_durations() {
    let k = Knobs::shipping();
    assert_eq!(Timer::Jiggle.owner(), JigglyState::Active);
    assert_eq!(Timer::Jiggle.target(), None);
    assert_eq!(Timer::Jiggle.duration(&k), 270 * SECOND);
    assert_eq!(Timer::Warn10.duration(&k), 13_230 * SECOND);
    assert_eq!(Timer::Warn5.duration(&k), 13_530 * SECOND);
    assert_eq!(Timer::Shutdown.duration(&k), 13_830 * SECOND);
    assert_eq!(Timer::QuietEnd.duration(&k), 25 * SECOND);
    assert_eq!(Timer::QuietEnd.target(), Some(JigglyState::PoweringDown));
    let short = Knobs { rt: 0, ya: 3, ra: 2, fra: 1 };
    assert_eq!(Timer::Shutdown.duration(&short), 0);
    assert_eq!(Timer::Warn10.duration(&short), 0);
}

#[test]
fn active_clock_starts_at_zero() {
    let ctx = Ctx { active_start: None };
    assert_eq!(ctx.active_elapsed(99), 0);
}

#[test]
fn knobs_know_their_times() {
    let k = Knobs::shipping();
    assert_eq!(k, Knobs { rt: 231, ya: 22, ra: 11, fra: 4 });
    assert_eq!(k.run_duration(), 231 * MINUTE);
    assert_eq!(k.run_before_shutdown(), 231 * MINUTE - 30 * SECOND);
    assert_eq!(k.warn_10_at() + 10 * MINUTE, k.run_before_shutdown());
    assert_eq!(k.warn_5_at() + 5 * MINUTE, k.run_before_shutdown());
    assert_eq!(k.yellow_at(), 22 * MINUTE);
    assert_eq!(k.red_at(), 11 * MINUTE);
    assert_eq!(k.fast_red_at(), 4 * MINUTE);
    assert!(k.is_feasible());
    assert!(!Knobs { rt: 231, ya: 22, ra: 22, fra: 4 }.is_feasible());
    assert!(!Knobs { rt: 231, ya: 22, ra: 11, fra: 0 }.is_feasible());
}
