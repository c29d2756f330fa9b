//! Waking the host with the keyboard: four taps of a harmless key, and a
//! release that always follows.
use vstd::prelude::*;

use crate::config::{
    KBD_KEY_F13, KBD_PHASE_DURATION, KBD_RELEASE_DEADLINE, KBD_TAP_GAP, KBD_TAP_HOLD,
    KBD_WAKE_DEADLINE, KBD_WAKE_TAPS,
};
use crate::mouse::WakeEvent;

verus! {

/// A keyboard report as the host gets it.
#[derive(Debug, Clone, Copy)]
pub struct KeyboardReport {
    pub modifier: u8,
    pub reserved: u8,
    pub leds: u8,
    pub keycodes: [u8; 6],
}

impl KeyboardReport {
    /// The host sees a key or a modifier held down.
    pub open spec fn holds(self) -> bool {
        self.modifier != 0 || exists|i: int| 0 <= i < 6 && self.keycodes@[i] != 0
    }
}

/// The report of a modifier and up to six keys.
pub fn keyboard_report(modifier: u8, keycodes: [u8; 6]) -> (r: KeyboardReport)
    ensures
        r.modifier == modifier,
        r.reserved == 0,
        r.leds == 0,
        r.keycodes@ == keycodes@,
{
    KeyboardReport { modifier, reserved: 0, leds: 0, keycodes }
}

/// F13 down, and nothing else.
pub fn f13_down() -> (r: KeyboardReport)
    ensures
        r.modifier == 0 && r.reserved == 0 && r.leds == 0,
        r.keycodes@ == seq![KBD_KEY_F13, 0u8, 0u8, 0u8, 0u8, 0u8],
        r.holds(),
{
    let r = keyboard_report(0, [KBD_KEY_F13, 0, 0, 0, 0, 0]);
    assert(r.keycodes@[0] != 0);
    r
}

/// Every key up.
pub fn all_up() -> (r: KeyboardReport)
    ensures
        r.modifier == 0 && r.reserved == 0 && r.leds == 0,
        r.keycodes@ == seq![0u8, 0u8, 0u8, 0u8, 0u8, 0u8],
        !r.holds(),
{
    keyboard_report(0, [0, 0, 0, 0, 0, 0])
}

/// One thing for the driver to do.
#[derive(Debug, Clone, Copy, PartialEq, Eq, Structural)]
pub enum KbdStep {
    /// Send F13 down.
    Down,
    /// Send every key up.
    Up,
    /// Wait, in microseconds.
    Wait(u64),
}

/// Step `i` of the taps: down, hold, up, gap, and over again.
pub open spec fn tap_step(i: int) -> KbdStep {
    if i % 4 == 0 {
        KbdStep::Down
    } else if i % 4 == 1 {
        KbdStep::Wait(KBD_TAP_HOLD)
    } else if i % 4 == 2 {
        KbdStep::Up
    } else {
        KbdStep::Wait(KBD_TAP_GAP)
    }
}

/// Step `i` of the taps, or none after the last.
pub fn wake_with_keyboard(i: u32) -> (r: Option<KbdStep>)
    ensures
        r == (if i < 4 * KBD_WAKE_TAPS {
            Some(tap_step(i as int))
        } else {
            None
        }),
{
    if i >= 4 * KBD_WAKE_TAPS {
        None
    } else if i % 4 == 0 {
        Some(KbdStep::Down)
    } else if i % 4 == 1 {
        Some(KbdStep::Wait(KBD_TAP_HOLD))
    } else if i % 4 == 2 {
        Some(KbdStep::Up)
    } else {
        Some(KbdStep::Wait(KBD_TAP_GAP))
    }
}

/// Where the keyboard wake stands: at a step of the taps, at the release that
/// closes it, or over.
#[derive(Debug, Clone, Copy, PartialEq, Eq, Structural)]
pub enum WakePhase {
    Tap(u32),
    Release,
    Done,
}

/// What the driver does in `p`.
pub open spec fn step_of(p: WakePhase) -> Option<KbdStep> {
    match p {
        WakePhase::Tap(i) => Some(tap_step(i as int)),
        WakePhase::Release => Some(KbdStep::Up),
        WakePhase::Done => None,
    }
}

/// What follows `p`: the taps in turn, then the release, and a deadline cuts
/// the taps short but never the release's turn.
pub open spec fn wake_next(p: WakePhase, e: WakeEvent) -> WakePhase {
    match (p, e) {
        (WakePhase::Tap(i), WakeEvent::StepDone) => if i + 1 < 4 * KBD_WAKE_TAPS {
            WakePhase::Tap((i + 1) as u32)
        } else {
            WakePhase::Release
        },
        (WakePhase::Tap(_), WakeEvent::Deadline) => WakePhase::Release,
        _ => WakePhase::Done,
    }
}

/// What the driver does in `p`, if anything is left to do.
pub fn keyboard_wake_step(p: WakePhase) -> (r: Option<KbdStep>)
    requires
        p matches WakePhase::Tap(i) ==> i < 4 * KBD_WAKE_TAPS,
    ensures
        r == step_of(p),
{
    match p {
        WakePhase::Tap(i) => wake_with_keyboard(i),
        WakePhase::Release => Some(KbdStep::Up),
        WakePhase::Done => None,
    }
}

/// What follows `p`.
pub fn keyboard_wake_next(p: WakePhase, e: WakeEvent) -> (r: WakePhase)
    ensures
        r == wake_next(p, e),
        p matches WakePhase::Tap(i) ==> (r matches WakePhase::Tap(j) ==> j < 4 * KBD_WAKE_TAPS),
{
    match (p, e) {
        (WakePhase::Tap(i), WakeEvent::StepDone) => {
            if i < 4 * KBD_WAKE_TAPS - 1 {
                WakePhase::Tap(i + 1)
            } else {
                WakePhase::Release
            }
        },
        (WakePhase::Tap(_), WakeEvent::Deadline) => WakePhase::Release,
        _ => WakePhase::Done,
    }
}

/// The deadline of the race that `p` belongs to.
pub open spec fn deadline_of(p: WakePhase) -> u64 {
    if p is Tap {
        KBD_WAKE_DEADLINE
    } else {
        KBD_RELEASE_DEADLINE
    }
}

/// The deadline of the race that `p` belongs to, counted from the race's start.
pub fn keyboard_wake_deadline(p: WakePhase) -> (r: u64)
    ensures
        r == deadline_of(p),
{
    match p {
        WakePhase::Tap(_) => KBD_WAKE_DEADLINE,
        _ => KBD_RELEASE_DEADLINE,
    }
}

/// Whether a new race starts between two phases: the release races a deadline of
/// its own.
pub fn keyboard_wake_restarts(before: WakePhase, after: WakePhase) -> (r: bool)
    ensures
        r == (before is Tap && after is Release),
{
    match (before, after) {
        (WakePhase::Tap(_), WakePhase::Release) => true,
        _ => false,
    }
}

/// Where the wake stands after `events`.
pub open spec fn wake_after(events: Seq<WakeEvent>) -> WakePhase
    decreases events.len(),
{
    if events.len() == 0 {
        WakePhase::Tap(0)
    } else {
        wake_next(wake_after(events.drop_last()), events.last())
    }
}

proof fn lemma_wake_progress(events: Seq<WakeEvent>)
    ensures
        match wake_after(events) {
            WakePhase::Tap(i) => i == events.len() && i < 4 * KBD_WAKE_TAPS,
            WakePhase::Release => 1 <= events.len() <= 4 * KBD_WAKE_TAPS,
            WakePhase::Done => events.len() >= 2,
        },
    decreases events.len(),
{
    if events.len() > 0 {
        lemma_wake_progress(events.drop_last());
    }
}

/// No key is left held: wherever a deadline falls, the wake is over only after
/// the step that releases every key, and that step is its last.
pub proof fn law_release_always_follows(events: Seq<WakeEvent>)
    requires
        wake_after(events) == WakePhase::Done,
    ensures
        exists|n: int|
            0 <= n < events.len() && #[trigger] wake_after(events.take(n)) == WakePhase::Release && (
            forall|m: int|
                n < m <= events.len() ==> #[trigger] wake_after(events.take(m)) == WakePhase::Done),
    decreases events.len(),
{
    assert(events.len() > 0);
    let d = events.drop_last();
    assert(events.take(events.len() as int) =~= events);
    assert(events.take(events.len() - 1) =~= d);
    if wake_after(d) == WakePhase::Done {
        law_release_always_follows(d);
        let n = choose|n: int|
            0 <= n < d.len() && #[trigger] wake_after(d.take(n)) == WakePhase::Release && (forall|
                m: int,
            |
                n < m <= d.len() ==> #[trigger] wake_after(d.take(m)) == WakePhase::Done);
        assert(d.take(n) =~= events.take(n));
        assert forall|m: int| n < m <= events.len() implies #[trigger] wake_after(events.take(m))
            == WakePhase::Done by {
            if m <= d.len() {
                assert(d.take(m) =~= events.take(m));
            }
        }
        assert(wake_after(events.take(n)) == WakePhase::Release);
    } else {
        let n = events.len() - 1;
        assert(wake_after(events.take(n)) == WakePhase::Release);
        assert forall|m: int| n < m <= events.len() implies #[trigger] wake_after(events.take(m))
            == WakePhase::Done by {
            assert(m == events.len());
        }
    }
}

/// The wake always ends, after seventeen steps at most.
pub proof fn law_keyboard_wake_ends(events: Seq<WakeEvent>)
    requires
        events.len() > 4 * KBD_WAKE_TAPS,
    ensures
        wake_after(events) == WakePhase::Done,
{
    lemma_wake_progress(events);
}

/// The key is down after the first `n` steps of the taps.
pub open spec fn down_after(n: int) -> bool
    decreases n,
{
    if n <= 0 {
        false
    } else {
        match tap_step(n - 1) {
            KbdStep::Down => true,
            KbdStep::Up => false,
            KbdStep::Wait(_) => down_after(n - 1),
        }
    }
}

/// The time that the first `n` steps of the taps wait.
pub open spec fn wait_of(n: int) -> int
    decreases n,
{
    if n <= 0 {
        0
    } else {
        wait_of(n - 1) + match tap_step(n - 1) {
            KbdStep::Wait(t) => t as int,
            _ => 0,
        }
    }
}

/// The taps by themselves are whole: after each, the key is up, and it took one
/// hold and one gap.
pub proof fn law_taps_are_whole(n: nat)
    ensures
        !down_after((4 * n) as int),
        wait_of((4 * n) as int) == n * (KBD_TAP_HOLD + KBD_TAP_GAP),
    decreases n,
{
    if n > 0 {
        law_taps_are_whole((n - 1) as nat);
        let k = 4 * (n - 1);
        reveal_with_fuel(wait_of, 5);
        assert(wait_of(k + 1) == wait_of(k));
        assert(wait_of(k + 2) == wait_of(k + 1) + KBD_TAP_HOLD);
        assert(wait_of(k + 3) == wait_of(k + 2));
        assert(wait_of(k + 4) == wait_of(k + 3) + KBD_TAP_GAP);
        assert(!down_after(k + 3));
        assert(!down_after(k + 4));
        assert((n - 1) * (KBD_TAP_HOLD + KBD_TAP_GAP) + (KBD_TAP_HOLD + KBD_TAP_GAP) == n * (
        KBD_TAP_HOLD + KBD_TAP_GAP)) by (nonlinear_arith);
    }
}

/// On a host that keeps up, the taps end before their deadline, and the deadline
/// before the chart moves on to the mouse.
pub proof fn law_taps_fit_the_deadline()
    ensures
        wait_of(4 * KBD_WAKE_TAPS as int) < KBD_WAKE_DEADLINE < KBD_PHASE_DURATION,
{
    law_taps_are_whole(KBD_WAKE_TAPS as nat);
}

/// Each tap is the key down, thirty milliseconds, the key up, and fifty
/// milliseconds.
pub proof fn law_each_tap_is_down_and_up(n: int)
    requires
        n >= 0,
    ensures
        tap_step(4 * n) == KbdStep::Down,
        tap_step(4 * n + 1) == KbdStep::Wait(30_000),
        tap_step(4 * n + 2) == KbdStep::Up,
        tap_step(4 * n + 3) == KbdStep::Wait(50_000),
{
}

/// As long as steps are done, they come one after the other: the sixteen of the
/// four taps, then the release, and then nothing.
pub proof fn law_taps_come_in_order(events: Seq<WakeEvent>)
    requires
        forall|i: int| 0 <= i < events.len() ==> #[trigger] events[i] == WakeEvent::StepDone,
    ensures
        events.len() < 16 ==> wake_after(events) == WakePhase::Tap(events.len() as u32) && step_of(
            wake_after(events),
        ) == Some(tap_step(events.len() as int)),
        events.len() == 16 ==> wake_after(events) == WakePhase::Release && step_of(
            wake_after(events),
        ) == Some(KbdStep::Up),
        events.len() > 16 ==> wake_after(events) == WakePhase::Done && step_of(
            wake_after(events),
        ) is None,
    decreases events.len(),
{
    if events.len() > 0 {
        let d = events.drop_last();
        assert forall|i: int| 0 <= i < d.len() implies #[trigger] d[i] == WakeEvent::StepDone by {
            assert(d[i] == events[i]);
        }
        law_taps_come_in_order(d);
        assert(events[events.len() - 1] == WakeEvent::StepDone);
    }
}

/// A deadline among the taps leads to the release at once, and any event at the
/// release ends the wake for good.
pub proof fn law_deadline_leads_to_the_release(i: u32, e: WakeEvent)
    ensures
        wake_next(WakePhase::Tap(i), WakeEvent::Deadline) == WakePhase::Release,
        i < 15 ==> wake_next(WakePhase::Tap(i), WakeEvent::StepDone) == WakePhase::Tap(
            (i + 1) as u32,
        ),
        i >= 15 ==> wake_next(WakePhase::Tap(i), WakeEvent::StepDone) == WakePhase::Release,
        wake_next(WakePhase::Release, e) == WakePhase::Done,
        wake_next(WakePhase::Done, e) == WakePhase::Done,
        step_of(WakePhase::Tap(i)) == Some(tap_step(i as int)),
        step_of(WakePhase::Release) == Some(KbdStep::Up),
        step_of(WakePhase::Done) is None,
{
}

/// A report holds a key where any of its keys or its modifier is set.
pub proof fn law_report_holds_what_is_set(r: KeyboardReport, i: int)
    requires
        0 <= i < 6,
    ensures
        r.keycodes@[i] != 0 ==> r.holds(),
        r.modifier != 0 ==> r.holds(),
        r.modifier == 0 && (forall|j: int| 0 <= j < 6 ==> r.keycodes@[j] == 0) ==> !r.holds(),
{
}

/// All taps share half a second, and the release has a tenth of its own.
pub proof fn law_races_have_their_deadlines(i: u32)
    ensures
        deadline_of(WakePhase::Tap(i)) == 500_000,
        deadline_of(WakePhase::Release) == 100_000,
{
}

} // verus!
