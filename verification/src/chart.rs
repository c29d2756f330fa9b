//! The device's lifecycle as a hierarchical chart: states nested two deep,
//! timers that live as long as the state that owns them, and a queue of events.
//! The chart decides; its driver performs the actions it names, runs the
//! activities of the state it is in, and reports what finished.
use vstd::prelude::*;

use crate::config::{
    Knobs, FLASH_DURATION, JIGGLE_PERIOD, KBD_PHASE_DURATION, MOUSE_PHASE_DURATION,
    QUIET_AFTER_ANIM, SETTLING_DELAY, WARN_10_LEAD, WARN_5_LEAD,
};

verus! {

/// How many events the queue holds.
pub const QUEUE_CAPACITY: usize = 8;

/// What the activities and the jiggle report.
#[derive(Debug, Clone, Copy, PartialEq, Eq, Structural)]
pub enum Ev {
    BootDone,
    SpinDone,
    Jiggled,
    WarnDone,
    SpiralDone,
}

/// The states. `WakingHost`, `Active` and `Ending` hold others.
#[derive(Debug, Clone, Copy, PartialEq, Eq, Structural)]
pub enum JigglyState {
    Booting,
    WakingHost,
    WakingWithKeyboard,
    WakingWithMouse,
    Settling,
    Spinning,
    Active,
    Breathing,
    Flashing,
    Warning10,
    Warning5,
    Ending,
    Spiraling,
    Quiet,
    PoweringDown,
}

/// One-shot work that the driver performs when the chart names it.
#[derive(Debug, Clone, Copy, PartialEq, Eq, Structural)]
pub enum Action {
    KeyboardWake,
    MouseWake,
    CaptureActiveStart,
    JigglePair,
    PaintWhite,
    ShutdownFlashes,
    PowerOffNeo,
}

/// Work that runs for as long as its state is active.
#[derive(Debug, Clone, Copy, PartialEq, Eq, Structural)]
pub enum During {
    BootSweep,
    PulseBlue,
    PulseWhite,
    AnimateSpinner,
    FadeToGreen,
    BreatheColor,
    AnimateWarning10,
    AnimateWarning5,
    BlinkFastRed,
    AnimateFinalSpiral,
}

/// The timers, each owned by one state.
#[derive(Debug, Clone, Copy, PartialEq, Eq, Structural)]
pub enum Timer {
    KbdPhase,
    MousePhase,
    SettlingDelay,
    Jiggle,
    Warn10,
    Warn5,
    Shutdown,
    FlashOff,
    QuietEnd,
}

/// A running timer and the microseconds it has left.
#[derive(Debug, Clone, Copy, PartialEq, Eq, Structural)]
pub struct TimerEntry {
    pub timer: Timer,
    pub remaining: u64,
}

// ---------------------------------------------------------------------------
// The chart itself.
// ---------------------------------------------------------------------------

/// The state that holds `s`.
pub open spec fn parent_of(s: JigglyState) -> Option<JigglyState> {
    match s {
        JigglyState::WakingWithKeyboard | JigglyState::WakingWithMouse => Some(
            JigglyState::WakingHost,
        ),
        JigglyState::Breathing
        | JigglyState::Flashing
        | JigglyState::Warning10
        | JigglyState::Warning5 => Some(JigglyState::Active),
        JigglyState::Spiraling | JigglyState::Quiet => Some(JigglyState::Ending),
        _ => None,
    }
}

/// The state inside `s` that entering `s` goes on to.
pub open spec fn default_of(s: JigglyState) -> Option<JigglyState> {
    match s {
        JigglyState::WakingHost => Some(JigglyState::WakingWithKeyboard),
        JigglyState::Active => Some(JigglyState::Breathing),
        JigglyState::Ending => Some(JigglyState::Spiraling),
        _ => None,
    }
}

/// `s` is active while the innermost state is `leaf`.
pub open spec fn on_path(s: JigglyState, leaf: JigglyState) -> bool {
    s == leaf || parent_of(leaf) == Some(s)
}

/// How deep `s` is nested, counting from one.
pub open spec fn depth_of(s: JigglyState) -> int {
    if parent_of(s) is Some {
        2
    } else {
        1
    }
}

/// The actions on entering `s`, in order.
pub open spec fn entry_actions(s: JigglyState) -> Seq<Action> {
    match s {
        JigglyState::WakingWithKeyboard => seq![Action::KeyboardWake],
        JigglyState::WakingWithMouse => seq![Action::MouseWake],
        JigglyState::Active => seq![Action::CaptureActiveStart],
        JigglyState::Flashing => seq![Action::PaintWhite],
        JigglyState::PoweringDown => seq![Action::ShutdownFlashes, Action::PowerOffNeo],
        _ => seq![],
    }
}

/// The activities that `s` itself runs, in order.
pub open spec fn own_durings(s: JigglyState) -> Seq<During> {
    match s {
        JigglyState::Booting => seq![During::BootSweep],
        JigglyState::WakingHost => seq![During::PulseBlue],
        JigglyState::Settling => seq![During::PulseWhite],
        JigglyState::Spinning => seq![During::AnimateSpinner, During::FadeToGreen],
        JigglyState::Breathing => seq![During::BreatheColor],
        JigglyState::Warning10 => seq![During::AnimateWarning10],
        JigglyState::Warning5 => seq![During::AnimateWarning5],
        JigglyState::Ending => seq![During::BlinkFastRed],
        JigglyState::Spiraling => seq![During::AnimateFinalSpiral],
        _ => seq![],
    }
}

/// All activities that run in `leaf`, its own before its parent's.
pub open spec fn durings_of(leaf: JigglyState) -> Seq<During> {
    match parent_of(leaf) {
        Some(p) => own_durings(leaf) + own_durings(p),
        None => own_durings(leaf),
    }
}

/// The event that ends activity `d`; the others run until they are dropped.
pub open spec fn completion_of(d: During) -> Option<Ev> {
    match d {
        During::BootSweep => Some(Ev::BootDone),
        During::AnimateSpinner => Some(Ev::SpinDone),
        During::AnimateWarning10 | During::AnimateWarning5 => Some(Ev::WarnDone),
        During::AnimateFinalSpiral => Some(Ev::SpiralDone),
        _ => None,
    }
}

/// `d` paints the LED; the others move the cursor.
pub open spec fn uses_led(d: During) -> bool {
    match d {
        During::BootSweep
        | During::PulseBlue
        | During::PulseWhite
        | During::FadeToGreen
        | During::BreatheColor
        | During::BlinkFastRed => true,
        _ => false,
    }
}

/// Where event `e` leads from `s`, if `s` itself handles it.
pub open spec fn own_handler(s: JigglyState, e: Ev) -> Option<JigglyState> {
    match (s, e) {
        (JigglyState::Booting, Ev::BootDone) => Some(JigglyState::WakingHost),
        (JigglyState::Spinning, Ev::SpinDone) => Some(JigglyState::Active),
        (JigglyState::Breathing, Ev::Jiggled) => Some(JigglyState::Flashing),
        (JigglyState::Warning10, Ev::WarnDone) => Some(JigglyState::Breathing),
        (JigglyState::Warning5, Ev::WarnDone) => Some(JigglyState::Breathing),
        (JigglyState::Spiraling, Ev::SpiralDone) => Some(JigglyState::Quiet),
        _ => None,
    }
}

/// Where event `e` leads from `leaf`: the innermost state that handles it
/// decides; an event that none handles is dropped.
pub open spec fn handler_of(leaf: JigglyState, e: Ev) -> Option<JigglyState> {
    match (own_handler(leaf, e), parent_of(leaf)) {
        (Some(t), _) => Some(t),
        (None, Some(p)) => own_handler(p, e),
        (None, None) => None,
    }
}

/// The state that owns `t`.
pub open spec fn owner_of(t: Timer) -> JigglyState {
    match t {
        Timer::KbdPhase => JigglyState::WakingWithKeyboard,
        Timer::MousePhase => JigglyState::WakingWithMouse,
        Timer::SettlingDelay => JigglyState::Settling,
        Timer::Jiggle | Timer::Warn10 | Timer::Warn5 | Timer::Shutdown => JigglyState::Active,
        Timer::FlashOff => JigglyState::Flashing,
        Timer::QuietEnd => JigglyState::Quiet,
    }
}

/// The timers that `s` owns, in the order in which they start.
pub open spec fn timers_of(s: JigglyState) -> Seq<Timer> {
    match s {
        JigglyState::WakingWithKeyboard => seq![Timer::KbdPhase],
        JigglyState::WakingWithMouse => seq![Timer::MousePhase],
        JigglyState::Settling => seq![Timer::SettlingDelay],
        JigglyState::Active => seq![Timer::Jiggle, Timer::Warn10, Timer::Warn5, Timer::Shutdown],
        JigglyState::Flashing => seq![Timer::FlashOff],
        JigglyState::Quiet => seq![Timer::QuietEnd],
        _ => seq![],
    }
}

/// How long `t` runs.
pub open spec fn duration_of(k: Knobs, t: Timer) -> int {
    match t {
        Timer::KbdPhase => KBD_PHASE_DURATION as int,
        Timer::MousePhase => MOUSE_PHASE_DURATION as int,
        Timer::SettlingDelay => SETTLING_DELAY as int,
        Timer::Jiggle => JIGGLE_PERIOD as int,
        Timer::Warn10 => crate::config::minus(k.run_before_shutdown_us(), WARN_10_LEAD as int),
        Timer::Warn5 => crate::config::minus(k.run_before_shutdown_us(), WARN_5_LEAD as int),
        Timer::Shutdown => k.run_before_shutdown_us(),
        Timer::FlashOff => FLASH_DURATION as int,
        Timer::QuietEnd => QUIET_AFTER_ANIM as int,
    }
}

/// Where `t` leads when it runs out. The jiggle leads nowhere: it acts, and
/// starts again.
pub open spec fn target_of(t: Timer) -> Option<JigglyState> {
    match t {
        Timer::KbdPhase => Some(JigglyState::WakingWithMouse),
        Timer::MousePhase => Some(JigglyState::Settling),
        Timer::SettlingDelay => Some(JigglyState::Spinning),
        Timer::Jiggle => None,
        Timer::Warn10 => Some(JigglyState::Warning10),
        Timer::Warn5 => Some(JigglyState::Warning5),
        Timer::Shutdown => Some(JigglyState::Ending),
        Timer::FlashOff => Some(JigglyState::Breathing),
        Timer::QuietEnd => Some(JigglyState::PoweringDown),
    }
}

// ---------------------------------------------------------------------------
// Timers.
// ---------------------------------------------------------------------------

pub open spec fn entry(t: Timer, remaining: int) -> TimerEntry {
    TimerEntry { timer: t, remaining: remaining as u64 }
}

/// `t` is running in `ts`.
pub open spec fn armed(ts: Seq<TimerEntry>, t: Timer) -> bool {
    exists|i: int| 0 <= i < ts.len() && (#[trigger] ts[i]).timer == t
}

/// `ts` with `t` started at `d`: set anew where it runs already, else added at
/// the end.
pub open spec fn start(ts: Seq<TimerEntry>, t: Timer, d: int) -> Seq<TimerEntry> {
    if armed(ts, t) {
        ts.map_values(
            |e: TimerEntry|
                if e.timer == t {
                    entry(t, d)
                } else {
                    e
                },
        )
    } else {
        ts.push(entry(t, d))
    }
}

/// `ts` with all of `new` started in order.
pub open spec fn start_all(k: Knobs, ts: Seq<TimerEntry>, new: Seq<Timer>) -> Seq<TimerEntry>
    decreases new.len(),
{
    if new.len() == 0 {
        ts
    } else {
        start(start_all(k, ts, new.drop_last()), new.last(), duration_of(k, new.last()))
    }
}

/// `ts` without the timers that `s` owns.
pub open spec fn cancel(ts: Seq<TimerEntry>, s: JigglyState) -> Seq<TimerEntry>
    decreases ts.len(),
{
    if ts.len() == 0 {
        ts
    } else if owner_of(ts.last().timer) == s {
        cancel(ts.drop_last(), s)
    } else {
        cancel(ts.drop_last(), s).push(ts.last())
    }
}

/// `ts` after `elapsed` microseconds; a timer stops at zero.
pub open spec fn tick(ts: Seq<TimerEntry>, elapsed: int) -> Seq<TimerEntry> {
    ts.map_values(
        |e: TimerEntry| entry(e.timer, crate::config::minus(e.remaining as int, elapsed)),
    )
}

/// The timer at `i` is the one to fire: it has run out, no timer of a deeper
/// state has, and none of the same depth stands before it.
pub open spec fn fires(ts: Seq<TimerEntry>, i: int) -> bool {
    &&& 0 <= i < ts.len()
    &&& ts[i].remaining == 0
    &&& forall|j: int|
        0 <= j < ts.len() && (#[trigger] ts[j]).remaining == 0 ==> depth_of(owner_of(ts[j].timer))
            < depth_of(owner_of(ts[i].timer)) || (depth_of(owner_of(ts[j].timer)) == depth_of(
            owner_of(ts[i].timer),
        ) && i <= j)
}

/// `ts` without the timer at `i`; the last one takes its place.
pub open spec fn take_out(ts: Seq<TimerEntry>, i: int) -> Seq<TimerEntry> {
    ts.update(i, ts.last()).drop_last()
}

// ---------------------------------------------------------------------------
// Steps.
// ---------------------------------------------------------------------------

/// The chart as a value.
#[verifier::ext_equal]
pub struct ChartView {
    pub knobs: Knobs,
    /// The innermost active state; none before the start.
    pub current: Option<JigglyState>,
    pub timers: Seq<TimerEntry>,
    pub queue: Seq<Ev>,
    /// An event of the chart's own did not fit the queue.
    pub overflow: bool,
}

/// The states left on the way from `from` to `to`, innermost first.
pub open spec fn exits(from: JigglyState, to: JigglyState) -> Seq<JigglyState> {
    if from == to {
        seq![from]
    } else {
        (if on_path(from, to) {
            seq![]
        } else {
            seq![from]
        }) + match parent_of(from) {
            Some(p) => if on_path(p, to) {
                seq![]
            } else {
                seq![p]
            },
            None => seq![],
        }
    }
}

/// The states entered on the way from `from` to `to`, outermost first, with the
/// default that follows.
pub open spec fn entries(from: JigglyState, to: JigglyState) -> Seq<JigglyState> {
    let down = if from == to {
        seq![to]
    } else {
        (match parent_of(to) {
            Some(p) => if on_path(p, from) {
                seq![]
            } else {
                seq![p]
            },
            None => seq![],
        }) + (if on_path(to, from) {
            seq![]
        } else {
            seq![to]
        })
    };
    match default_of(to) {
        Some(d) => if down.len() > 0 {
            down.push(d)
        } else {
            down
        },
        None => down,
    }
}

/// The actions of entering `ss` in order.
pub open spec fn actions_of(ss: Seq<JigglyState>) -> Seq<Action>
    decreases ss.len(),
{
    if ss.len() == 0 {
        seq![]
    } else {
        actions_of(ss.drop_last()) + entry_actions(ss.last())
    }
}

impl ChartView {
    /// Leaving `ss` in order.
    pub open spec fn exit_all(self, ss: Seq<JigglyState>) -> ChartView
        decreases ss.len(),
    {
        if ss.len() == 0 {
            self
        } else {
            let v = self.exit_all(ss.drop_last());
            ChartView { timers: cancel(v.timers, ss.last()), ..v }
        }
    }

    /// Entering `ss` in order.
    pub open spec fn enter_all(self, ss: Seq<JigglyState>) -> ChartView
        decreases ss.len(),
    {
        if ss.len() == 0 {
            self
        } else {
            let v = self.enter_all(ss.drop_last());
            ChartView {
                current: Some(ss.last()),
                timers: start_all(v.knobs, v.timers, timers_of(ss.last())),
                ..v
            }
        }
    }

    /// The move from the current state to `target`.
    pub open spec fn go(self, target: JigglyState) -> ChartView {
        let from = self.current->0;
        let v = self.exit_all(exits(from, target)).enter_all(entries(from, target));
        if entries(from, target).len() == 0 {
            ChartView { current: Some(target), ..v }
        } else {
            v
        }
    }

    /// The actions of that move.
    pub open spec fn go_actions(self, target: JigglyState) -> Seq<Action> {
        actions_of(entries(self.current->0, target))
    }

    /// An event of the chart's own joins the queue, or is lost to an overflow.
    pub open spec fn emit(self, e: Ev) -> ChartView {
        if self.overflow {
            self
        } else if self.queue.len() < QUEUE_CAPACITY {
            ChartView { queue: self.queue.push(e), ..self }
        } else {
            ChartView { overflow: true, ..self }
        }
    }

    /// An event of an activity joins the queue, or is lost if there is no room.
    pub open spec fn sent(self, e: Option<Ev>) -> ChartView {
        match e {
            Some(ev) => if self.queue.len() < QUEUE_CAPACITY {
                ChartView { queue: self.queue.push(ev), ..self }
            } else {
                self
            },
            None => self,
        }
    }

    /// The timer at `i` has run out: it leaves the table, or starts anew if it
    /// repeats, and does its work.
    pub open spec fn fire(self, i: int) -> (ChartView, Seq<Action>) {
        let t = self.timers[i].timer;
        let v = ChartView { timers: take_out(self.timers, i), ..self };
        match target_of(t) {
            Some(target) => (v.go(target), v.go_actions(target)),
            None => {
                let w = ChartView { timers: start(v.timers, t, duration_of(v.knobs, t)), ..v };
                (w.emit(Ev::Jiggled), seq![Action::JigglePair])
            },
        }
    }

    /// The first event leaves the queue and is handled, or dropped.
    pub open spec fn handle(self) -> (ChartView, Seq<Action>) {
        let v = ChartView { queue: self.queue.drop_first(), ..self };
        match handler_of(self.current->0, self.queue[0]) {
            Some(target) => (v.go(target), v.go_actions(target)),
            None => (v, seq![]),
        }
    }

    /// Going from nothing into the first state.
    pub open spec fn begin(self) -> ChartView {
        self.enter_all(seq![JigglyState::Booting])
    }

    /// `next` is the chart after `elapsed` microseconds and one unit of work,
    /// and `acts` what it asks for: a timer that ran out comes before an event
    /// in the queue.
    pub open spec fn steps_to(self, elapsed: int, next: ChartView, acts: Seq<Action>) -> bool {
        if self.current is None {
            next == self.begin() && acts == Seq::<Action>::empty()
        } else {
            let v = ChartView { timers: tick(self.timers, elapsed), ..self };
            if exists|i: int| fires(v.timers, i) {
                exists|i: int| #[trigger] fires(v.timers, i) && (next, acts) == v.fire(i)
            } else if v.queue.len() > 0 {
                (next, acts) == v.handle()
            } else {
                next == v && acts == Seq::<Action>::empty()
            }
        }
    }
}

/// A step has one outcome: at most one timer is the one to fire.
pub proof fn law_step_has_one_outcome(
    v: ChartView,
    elapsed: int,
    next: ChartView,
    acts: Seq<Action>,
    other_next: ChartView,
    other_acts: Seq<Action>,
)
    requires
        v.steps_to(elapsed, next, acts),
        v.steps_to(elapsed, other_next, other_acts),
    ensures
        next == other_next,
        acts == other_acts,
{
    let ts = tick(v.timers, elapsed);
    assert forall|i: int, j: int| #[trigger] fires(ts, i) && #[trigger] fires(ts, j) implies i
        == j by {}
}

// ---------------------------------------------------------------------------
// What every step keeps.
// ---------------------------------------------------------------------------

/// No timer runs twice.
pub open spec fn distinct(ts: Seq<TimerEntry>) -> bool {
    forall|i: int, j: int|
        0 <= i < j < ts.len() ==> (#[trigger] ts[i]).timer != (#[trigger] ts[j]).timer
}

/// The microseconds that `t` has left, if it is running.
pub open spec fn left(ts: Seq<TimerEntry>, t: Timer) -> Option<int> {
    if armed(ts, t) {
        Some(ts[choose|i: int| 0 <= i < ts.len() && (#[trigger] ts[i]).timer == t].remaining as int)
    } else {
        None
    }
}

/// The timers that stand in `c`: only those of active states, none beyond its
/// duration; every timer of an active state but a warning that has fired; and
/// each warning its lead ahead of the shutdown and gone once it shows.
pub open spec fn timers_ok(k: Knobs, ts: Seq<TimerEntry>, c: JigglyState) -> bool {
    &&& forall|t: Timer|
        #[trigger] left(ts, t) is Some ==> on_path(owner_of(t), c) && left(ts, t)->0 <= duration_of(
            k,
            t,
        )
    &&& forall|t: Timer|
        on_path(owner_of(t), c) && t != Timer::Warn10 && t != Timer::Warn5 ==> #[trigger] left(
            ts,
            t,
        ) is Some
    &&& left(ts, Timer::Warn10) is Some ==> left(ts, Timer::Warn10)->0 == crate::config::minus(
        left(ts, Timer::Shutdown)->0,
        WARN_10_LEAD as int,
    )
    &&& left(ts, Timer::Warn5) is Some ==> left(ts, Timer::Warn5)->0 == crate::config::minus(
        left(ts, Timer::Shutdown)->0,
        WARN_5_LEAD as int,
    )
    &&& c == JigglyState::Warning10 ==> left(ts, Timer::Warn10) is None
    &&& c == JigglyState::Warning5 ==> left(ts, Timer::Warn5) is None
    &&& on_path(JigglyState::Active, c) && left(ts, Timer::Shutdown)->0 > WARN_10_LEAD ==> left(
        ts,
        Timer::Warn10,
    ) is Some && c != JigglyState::Warning10
    &&& on_path(JigglyState::Active, c) && left(ts, Timer::Shutdown)->0 > WARN_5_LEAD ==> left(
        ts,
        Timer::Warn5,
    ) is Some && c != JigglyState::Warning5
}

impl ChartView {
    /// A chart as the constructor makes it and every step leaves it.
    pub open spec fn wf(self) -> bool {
        &&& self.knobs.runnable()
        &&& self.queue.len() <= QUEUE_CAPACITY
        &&& distinct(self.timers)
        &&& match self.current {
            None => self.timers.len() == 0,
            Some(c) => default_of(c) is None && timers_ok(self.knobs, self.timers, c),
        }
    }
}

pub(crate) proof fn lemma_left(ts: Seq<TimerEntry>, i: int)
    requires
        distinct(ts),
        0 <= i < ts.len(),
    ensures
        left(ts, ts[i].timer) == Some(ts[i].remaining as int),
{
    let t = ts[i].timer;
    let j = choose|j: int| 0 <= j < ts.len() && (#[trigger] ts[j]).timer == t;
    assert(armed(ts, t));
    if i < j {
        assert(ts[i].timer != ts[j].timer);
    } else if j < i {
        assert(ts[j].timer != ts[i].timer);
    }
}

pub(crate) proof fn lemma_left_is(ts: Seq<TimerEntry>, t: Timer) -> (i: int)
    requires
        left(ts, t) is Some,
    ensures
        0 <= i < ts.len(),
        ts[i].timer == t,
        left(ts, t) == Some(ts[i].remaining as int),
{
    choose|i: int| 0 <= i < ts.len() && (#[trigger] ts[i]).timer == t
}

pub(crate) proof fn lemma_tick(ts: Seq<TimerEntry>, elapsed: int)
    requires
        distinct(ts),
        elapsed >= 0,
    ensures
        distinct(tick(ts, elapsed)),
        forall|t: Timer|
            #[trigger] left(tick(ts, elapsed), t) == match left(ts, t) {
                Some(r) => Some(crate::config::minus(r, elapsed)),
                None => None,
            },
{
    let us = tick(ts, elapsed);
    assert forall|t: Timer|
        #[trigger] left(us, t) == match left(ts, t) {
            Some(r) => Some(crate::config::minus(r, elapsed)),
            None => None,
        } by {
        if left(ts, t) is Some {
            let i = lemma_left_is(ts, t);
            assert(us[i].timer == t);
            lemma_left(us, i);
        } else if left(us, t) is Some {
            let i = lemma_left_is(us, t);
            assert(ts[i].timer == t);
        }
    }
}

pub(crate) proof fn lemma_take_out(ts: Seq<TimerEntry>, i: int)
    requires
        distinct(ts),
        0 <= i < ts.len(),
    ensures
        distinct(take_out(ts, i)),
        forall|t: Timer|
            #[trigger] left(take_out(ts, i), t) == if t == ts[i].timer {
                None
            } else {
                left(ts, t)
            },
{
    let us = take_out(ts, i);
    assert(forall|j: int| 0 <= j < us.len() && j != i ==> us[j] == ts[j]);
    assert(i < us.len() ==> us[i] == ts[ts.len() - 1]);
    assert forall|t: Timer|
        #[trigger] left(us, t) == if t == ts[i].timer {
            None
        } else {
            left(ts, t)
        } by {
        if left(us, t) is Some {
            let j = lemma_left_is(us, t);
            let m = if j == i {
                ts.len() - 1
            } else {
                j
            };
            assert(us[j] == ts[m] && m != i);
            lemma_left(ts, m);
        } else if t != ts[i].timer && left(ts, t) is Some {
            let j = lemma_left_is(ts, t);
            if j == ts.len() - 1 {
                assert(us[i].timer == t);
            } else {
                assert(us[j].timer == t);
            }
        }
    }
}

pub(crate) proof fn lemma_start(ts: Seq<TimerEntry>, t0: Timer, d: int)
    requires
        distinct(ts),
        0 <= d <= u64::MAX,
    ensures
        distinct(start(ts, t0, d)),
        forall|t: Timer|
            #[trigger] left(start(ts, t0, d), t) == if t == t0 {
                Some(d)
            } else {
                left(ts, t)
            },
{
    let us = start(ts, t0, d);
    if armed(ts, t0) {
        assert(forall|j: int| 0 <= j < us.len() ==> us[j].timer == ts[j].timer);
    } else {
        assert(us[us.len() - 1] == entry(t0, d));
        assert(forall|j: int| 0 <= j < ts.len() ==> us[j] == ts[j]);
    }
    assert(distinct(us));
    assert forall|t: Timer|
        #[trigger] left(us, t) == if t == t0 {
            Some(d)
        } else {
            left(ts, t)
        } by {
        if left(ts, t) is Some {
            let i = lemma_left_is(ts, t);
            lemma_left(us, i);
        } else if t == t0 {
            lemma_left(us, us.len() - 1);
        } else if left(us, t) is Some {
            let i = lemma_left_is(us, t);
            assert(ts[i].timer == t);
        }
    }
}

proof fn lemma_cancel_from(ts: Seq<TimerEntry>, s: JigglyState, i: int)
    requires
        0 <= i < cancel(ts, s).len(),
    ensures
        owner_of(cancel(ts, s)[i].timer) != s,
        ts.contains(cancel(ts, s)[i]),
    decreases ts.len(),
{
    let d = ts.drop_last();
    if i < cancel(d, s).len() {
        lemma_cancel_from(d, s, i);
        let m = choose|m: int| 0 <= m < d.len() && d[m] == cancel(d, s)[i];
        assert(ts[m] == cancel(ts, s)[i]);
    } else {
        assert(ts[ts.len() - 1] == cancel(ts, s)[i]);
    }
}

proof fn lemma_cancel_keeps(ts: Seq<TimerEntry>, s: JigglyState, i: int)
    requires
        0 <= i < ts.len(),
        owner_of(ts[i].timer) != s,
    ensures
        cancel(ts, s).contains(ts[i]),
    decreases ts.len(),
{
    let d = ts.drop_last();
    let us = cancel(ts, s);
    if i < ts.len() - 1 {
        lemma_cancel_keeps(d, s, i);
        assert(d[i] == ts[i]);
        let m = choose|m: int| 0 <= m < cancel(d, s).len() && cancel(d, s)[m] == d[i];
        assert(us[m] == ts[i]);
    } else {
        assert(us[us.len() - 1] == ts[i]);
    }
}

proof fn lemma_cancel_distinct(ts: Seq<TimerEntry>, s: JigglyState)
    requires
        distinct(ts),
    ensures
        distinct(cancel(ts, s)),
    decreases ts.len(),
{
    if ts.len() > 0 {
        let d = ts.drop_last();
        assert(distinct(d));
        lemma_cancel_distinct(d, s);
        let c = cancel(d, s);
        if owner_of(ts.last().timer) != s {
            assert forall|i: int| 0 <= i < c.len() implies (#[trigger] c[i]).timer
                != ts.last().timer by {
                lemma_cancel_from(d, s, i);
                let m = choose|m: int| 0 <= m < d.len() && d[m] == c[i];
                assert(ts[m].timer != ts[ts.len() - 1].timer);
            }
        }
    }
}

proof fn lemma_cancel(ts: Seq<TimerEntry>, s: JigglyState)
    requires
        distinct(ts),
    ensures
        distinct(cancel(ts, s)),
        forall|t: Timer|
            #[trigger] left(cancel(ts, s), t) == if owner_of(t) == s {
                None
            } else {
                left(ts, t)
            },
{
    let us = cancel(ts, s);
    lemma_cancel_distinct(ts, s);
    assert forall|t: Timer|
        #[trigger] left(us, t) == if owner_of(t) == s {
            None
        } else {
            left(ts, t)
        } by {
        if left(us, t) is Some {
            let i = lemma_left_is(us, t);
            lemma_cancel_from(ts, s, i);
            let m = choose|m: int| 0 <= m < ts.len() && ts[m] == us[i];
            lemma_left(ts, m);
        } else if owner_of(t) != s && left(ts, t) is Some {
            let i = lemma_left_is(ts, t);
            lemma_cancel_keeps(ts, s, i);
            let m = choose|m: int| 0 <= m < us.len() && us[m] == ts[i];
            assert(us[m].timer == t);
        }
    }
}

pub(crate) proof fn lemma_duration(k: Knobs, t: Timer)
    requires
        k.runnable(),
    ensures
        0 <= duration_of(k, t) <= u64::MAX,
{
}

proof fn lemma_start_all(k: Knobs, ts: Seq<TimerEntry>, new: Seq<Timer>)
    requires
        k.runnable(),
        distinct(ts),
    ensures
        distinct(start_all(k, ts, new)),
        forall|t: Timer|
            #[trigger] left(start_all(k, ts, new), t) == if new.contains(t) {
                Some(duration_of(k, t))
            } else {
                left(ts, t)
            },
    decreases new.len(),
{
    if new.len() > 0 {
        let d = new.drop_last();
        lemma_start_all(k, ts, d);
        lemma_duration(k, new.last());
        lemma_start(start_all(k, ts, d), new.last(), duration_of(k, new.last()));
        assert forall|t: Timer| new.contains(t) == (d.contains(t) || t == new.last()) by {
            if d.contains(t) {
                let m = choose|m: int| 0 <= m < d.len() && d[m] == t;
                assert(new[m] == t);
            }
            if t == new.last() {
                assert(new[new.len() - 1] == t);
            }
            if new.contains(t) && t != new.last() {
                let m = choose|m: int| 0 <= m < new.len() && new[m] == t;
                assert(d[m] == t);
            }
        }
    }
}

/// A state starts exactly the timers that it owns.
proof fn lemma_timers_of(s: JigglyState, t: Timer)
    ensures
        timers_of(s).contains(t) <==> owner_of(t) == s,
{
    let ts = timers_of(s);
    if owner_of(t) == s {
        if s == JigglyState::Active {
            assert(ts[0] == Timer::Jiggle && ts[1] == Timer::Warn10 && ts[2] == Timer::Warn5
                && ts[3] == Timer::Shutdown);
        } else {
            assert(ts[0] == t);
        }
    }
}

proof fn lemma_drop_last_contains(ss: Seq<JigglyState>, s: JigglyState)
    requires
        ss.len() > 0,
    ensures
        ss.contains(s) <==> ss.drop_last().contains(s) || s == ss.last(),
{
    let d = ss.drop_last();
    if d.contains(s) {
        let m = choose|m: int| 0 <= m < d.len() && d[m] == s;
        assert(ss[m] == s);
    }
    if s == ss.last() {
        assert(ss[ss.len() - 1] == s);
    }
    if ss.contains(s) && s != ss.last() {
        let m = choose|m: int| 0 <= m < ss.len() && ss[m] == s;
        assert(d[m] == s);
    }
}

proof fn lemma_exit_all(v: ChartView, ss: Seq<JigglyState>)
    requires
        distinct(v.timers),
    ensures
        ({
            let w = v.exit_all(ss);
            &&& distinct(w.timers)
            &&& w == (ChartView { timers: w.timers, ..v })
            &&& forall|t: Timer|
                #[trigger] left(w.timers, t) == if ss.contains(owner_of(t)) {
                    None
                } else {
                    left(v.timers, t)
                }
        }),
    decreases ss.len(),
{
    if ss.len() > 0 {
        let d = ss.drop_last();
        lemma_exit_all(v, d);
        lemma_cancel(v.exit_all(d).timers, ss.last());
        assert forall|t: Timer|
            #[trigger] left(v.exit_all(ss).timers, t) == if ss.contains(owner_of(t)) {
                None
            } else {
                left(v.timers, t)
            } by {
            lemma_drop_last_contains(ss, owner_of(t));
        }
    }
}

pub(crate) proof fn lemma_enter_all(v: ChartView, ss: Seq<JigglyState>)
    requires
        v.knobs.runnable(),
        distinct(v.timers),
    ensures
        ({
            let w = v.enter_all(ss);
            &&& distinct(w.timers)
            &&& w == (ChartView { timers: w.timers, current: w.current, ..v })
            &&& w.current == if ss.len() == 0 {
                v.current
            } else {
                Some(ss.last())
            }
            &&& forall|t: Timer|
                #[trigger] left(w.timers, t) == if ss.contains(owner_of(t)) {
                    Some(duration_of(v.knobs, t))
                } else {
                    left(v.timers, t)
                }
        }),
    decreases ss.len(),
{
    if ss.len() > 0 {
        let d = ss.drop_last();
        lemma_enter_all(v, d);
        lemma_start_all(v.knobs, v.enter_all(d).timers, timers_of(ss.last()));
        assert forall|t: Timer|
            #[trigger] left(v.enter_all(ss).timers, t) == if ss.contains(owner_of(t)) {
                Some(duration_of(v.knobs, t))
            } else {
                left(v.timers, t)
            } by {
            lemma_drop_last_contains(ss, owner_of(t));
            lemma_timers_of(ss.last(), t);
        }
    }
}

/// `s` is left on the way from `from` to `to`.
pub open spec fn is_left(from: JigglyState, to: JigglyState, s: JigglyState) -> bool {
    if from == to {
        s == from
    } else {
        on_path(s, from) && !on_path(s, to)
    }
}

/// `s` is entered on the way from `from` to `to`.
pub open spec fn is_entered(from: JigglyState, to: JigglyState, s: JigglyState) -> bool {
    if from == to {
        s == to || default_of(to) == Some(s)
    } else {
        (on_path(s, to) && !on_path(s, from)) || (default_of(to) == Some(s) && !on_path(to, from))
    }
}

proof fn lemma_exits(from: JigglyState, to: JigglyState, s: JigglyState)
    ensures
        exits(from, to).contains(s) <==> is_left(from, to, s),
{
    let e = exits(from, to);
    if is_left(from, to, s) {
        if s == from {
            assert(e[0] == s);
        } else if on_path(from, to) {
            assert(e[0] == s);
        } else {
            assert(e[1] == s);
        }
    }
}

proof fn lemma_entries(from: JigglyState, to: JigglyState, s: JigglyState)
    ensures
        entries(from, to).contains(s) <==> is_entered(from, to, s),
        entries(from, to).len() > 0 ==> entries(from, to).last() == match default_of(to) {
            Some(d) => d,
            None => to,
        },
        entries(from, to).len() == 0 <==> from != to && on_path(to, from),
{
    let e = entries(from, to);
    if is_entered(from, to, s) {
        if default_of(to) == Some(s) {
            assert(e[e.len() - 1] == s);
        } else if s == to {
            if default_of(to) is Some {
                assert(e[e.len() - 2] == s);
            } else {
                assert(e[e.len() - 1] == s);
            }
        } else {
            assert(e[0] == s);
        }
    }
}

/// What a move does to the state and the timers.
pub(crate) proof fn lemma_go(v: ChartView, target: JigglyState)
    requires
        v.knobs.runnable(),
        distinct(v.timers),
        v.current is Some,
    ensures
        ({
            let c = v.current->0;
            let w = v.go(target);
            &&& distinct(w.timers)
            &&& w == (ChartView { timers: w.timers, current: w.current, ..v })
            &&& w.current == Some(
                if default_of(target) is Some && !(c != target && on_path(target, c)) {
                    default_of(target)->0
                } else {
                    target
                },
            )
            &&& forall|t: Timer|
                #[trigger] left(w.timers, t) == if is_entered(c, target, owner_of(t)) {
                    Some(duration_of(v.knobs, t))
                } else if is_left(c, target, owner_of(t)) {
                    None
                } else {
                    left(v.timers, t)
                }
        }),
{
    let c = v.current->0;
    let x = v.exit_all(exits(c, target));
    lemma_exit_all(v, exits(c, target));
    lemma_enter_all(x, entries(c, target));
    lemma_entries(c, target, target);
    let w = v.go(target);
    assert forall|t: Timer|
        #[trigger] left(w.timers, t) == if is_entered(c, target, owner_of(t)) {
            Some(duration_of(v.knobs, t))
        } else if is_left(c, target, owner_of(t)) {
            None
        } else {
            left(v.timers, t)
        } by {
        lemma_exits(c, target, owner_of(t));
        lemma_entries(c, target, owner_of(t));
        assert(left(x.timers, t) == if exits(c, target).contains(owner_of(t)) {
            None
        } else {
            left(v.timers, t)
        });
    }
}

/// Ticking keeps the chart's invariant.
proof fn lemma_tick_wf(v: ChartView, elapsed: int)
    requires
        v.wf(),
        v.current is Some,
        elapsed >= 0,
    ensures
        (ChartView { timers: tick(v.timers, elapsed), ..v }).wf(),
{
    lemma_tick(v.timers, elapsed);
    assert(left(v.timers, Timer::Shutdown) is Some || left(v.timers, Timer::Shutdown) is None);
}

/// Firing a timer keeps the chart's invariant.
#[verifier::rlimit(30)]
proof fn lemma_fire_wf(v: ChartView, i: int)
    requires
        v.wf(),
        v.current is Some,
        fires(v.timers, i),
    ensures
        v.fire(i).0.wf(),
        v.fire(i).0.current is Some,
{
    let t0 = v.timers[i].timer;
    let c = v.current->0;
    lemma_left(v.timers, i);
    assert(left(v.timers, t0) == Some(0int));
    lemma_take_out(v.timers, i);
    let u = ChartView { timers: take_out(v.timers, i), ..v };
    match target_of(t0) {
        Some(target) => {
            lemma_go(u, target);
        },
        None => {
            lemma_duration(v.knobs, t0);
            lemma_start(u.timers, t0, duration_of(v.knobs, t0));
        },
    }
}

/// Handling an event keeps the chart's invariant.
proof fn lemma_handle_wf(v: ChartView)
    requires
        v.wf(),
        v.current is Some,
        v.queue.len() > 0,
    ensures
        v.handle().0.wf(),
        v.handle().0.current is Some,
{
    let u = ChartView { queue: v.queue.drop_first(), ..v };
    match handler_of(v.current->0, v.queue[0]) {
        Some(target) => {
            lemma_go(u, target);
        },
        None => {},
    }
}

/// Every step from a well-formed chart leads to a well-formed chart.
pub proof fn law_steps_keep_the_chart(v: ChartView, elapsed: int, next: ChartView, acts: Seq<Action>)
    requires
        v.wf(),
        elapsed >= 0,
        v.steps_to(elapsed, next, acts),
    ensures
        next.wf(),
        next.current is Some,
{
    if v.current is None {
        lemma_enter_all(v, seq![JigglyState::Booting]);
        assert forall|t: Timer| #[trigger] left(next.timers, t) is None by {
            assert(owner_of(t) != JigglyState::Booting);
            assert(!armed(v.timers, t));
        }
        assert(left(next.timers, Timer::Warn10) is None);
        assert(left(next.timers, Timer::Warn5) is None);
    } else {
        let w = ChartView { timers: tick(v.timers, elapsed), ..v };
        lemma_tick_wf(v, elapsed);
        if exists|i: int| fires(w.timers, i) {
            let i = choose|i: int| #[trigger] fires(w.timers, i) && (next, acts) == w.fire(i);
            lemma_fire_wf(w, i);
        } else if w.queue.len() > 0 {
            lemma_handle_wf(w);
        }
    }
}

// ---------------------------------------------------------------------------
// The machine.
// ---------------------------------------------------------------------------

impl JigglyState {
    /// The state that holds this one.
    pub fn parent(self) -> (r: Option<JigglyState>)
        ensures
            r == parent_of(self),
    {
        match self {
            JigglyState::WakingWithKeyboard | JigglyState::WakingWithMouse => Some(
                JigglyState::WakingHost,
            ),
            JigglyState::Breathing
            | JigglyState::Flashing
            | JigglyState::Warning10
            | JigglyState::Warning5 => Some(JigglyState::Active),
            JigglyState::Spiraling | JigglyState::Quiet => Some(JigglyState::Ending),
            _ => None,
        }
    }

    /// The state inside this one that entering it goes on to.
    pub fn default_child(self) -> (r: Option<JigglyState>)
        ensures
            r == default_of(self),
    {
        match self {
            JigglyState::WakingHost => Some(JigglyState::WakingWithKeyboard),
            JigglyState::Active => Some(JigglyState::Breathing),
            JigglyState::Ending => Some(JigglyState::Spiraling),
            _ => None,
        }
    }

    /// Whether this state is active while the innermost state is `leaf`.
    pub fn is_on_path(self, leaf: JigglyState) -> (r: bool)
        ensures
            r == on_path(self, leaf),
    {
        self == leaf || match leaf.parent() {
            Some(p) => p == self,
            None => false,
        }
    }

    /// Where `e` leads from this state, as it or its parent decides.
    pub fn handler(self, e: Ev) -> (r: Option<JigglyState>)
        ensures
            r == handler_of(self, e),
    {
        match self.own_handler(e) {
            Some(t) => Some(t),
            None => match self.parent() {
                Some(p) => p.own_handler(e),
                None => None,
            },
        }
    }

    fn own_handler(self, e: Ev) -> (r: Option<JigglyState>)
        ensures
            r == own_handler(self, e),
    {
        match (self, e) {
            (JigglyState::Booting, Ev::BootDone) => Some(JigglyState::WakingHost),
            (JigglyState::Spinning, Ev::SpinDone) => Some(JigglyState::Active),
            (JigglyState::Breathing, Ev::Jiggled) => Some(JigglyState::Flashing),
            (JigglyState::Warning10, Ev::WarnDone) => Some(JigglyState::Breathing),
            (JigglyState::Warning5, Ev::WarnDone) => Some(JigglyState::Breathing),
            (JigglyState::Spiraling, Ev::SpiralDone) => Some(JigglyState::Quiet),
            _ => None,
        }
    }

    fn push_own_durings(self, r: &mut Vec<During>)
        ensures
            final(r)@ == old(r)@ + own_durings(self),
    {
        match self {
            JigglyState::Booting => r.push(During::BootSweep),
            JigglyState::WakingHost => r.push(During::PulseBlue),
            JigglyState::Settling => r.push(During::PulseWhite),
            JigglyState::Spinning => {
                r.push(During::AnimateSpinner);
                r.push(During::FadeToGreen);
            },
            JigglyState::Breathing => r.push(During::BreatheColor),
            JigglyState::Warning10 => r.push(During::AnimateWarning10),
            JigglyState::Warning5 => r.push(During::AnimateWarning5),
            JigglyState::Ending => r.push(During::BlinkFastRed),
            JigglyState::Spiraling => r.push(During::AnimateFinalSpiral),
            _ => {},
        }
    }

    /// The activities that run while this is the innermost state, in the order
    /// in which they are polled.
    pub fn durings(self) -> (r: Vec<During>)
        ensures
            r@ == durings_of(self),
    {
        let mut r: Vec<During> = Vec::new();
        self.push_own_durings(&mut r);
        match self.parent() {
            Some(p) => p.push_own_durings(&mut r),
            None => {},
        }
        r
    }
}

impl During {
    /// The event that ends this activity, if it ends by itself.
    pub fn completion(self) -> (r: Option<Ev>)
        ensures
            r == completion_of(self),
    {
        match self {
            During::BootSweep => Some(Ev::BootDone),
            During::AnimateSpinner => Some(Ev::SpinDone),
            During::AnimateWarning10 | During::AnimateWarning5 => Some(Ev::WarnDone),
            During::AnimateFinalSpiral => Some(Ev::SpiralDone),
            _ => None,
        }
    }
}

impl Timer {
    /// The state that owns this timer.
    pub fn owner(self) -> (r: JigglyState)
        ensures
            r == owner_of(self),
    {
        match self {
            Timer::KbdPhase => JigglyState::WakingWithKeyboard,
            Timer::MousePhase => JigglyState::WakingWithMouse,
            Timer::SettlingDelay => JigglyState::Settling,
            Timer::Jiggle | Timer::Warn10 | Timer::Warn5 | Timer::Shutdown => JigglyState::Active,
            Timer::FlashOff => JigglyState::Flashing,
            Timer::QuietEnd => JigglyState::Quiet,
        }
    }

    /// How long this timer runs.
    pub fn duration(self, k: &Knobs) -> (r: u64)
        requires
            k.runnable(),
        ensures
            r == duration_of(*k, self),
    {
        match self {
            Timer::KbdPhase => KBD_PHASE_DURATION,
            Timer::MousePhase => MOUSE_PHASE_DURATION,
            Timer::SettlingDelay => SETTLING_DELAY,
            Timer::Jiggle => JIGGLE_PERIOD,
            Timer::Warn10 => k.warn_10_at(),
            Timer::Warn5 => k.warn_5_at(),
            Timer::Shutdown => k.run_before_shutdown(),
            Timer::FlashOff => FLASH_DURATION,
            Timer::QuietEnd => QUIET_AFTER_ANIM,
        }
    }

    /// Where this timer leads when it runs out.
    pub fn target(self) -> (r: Option<JigglyState>)
        ensures
            r == target_of(self),
    {
        match self {
            Timer::KbdPhase => Some(JigglyState::WakingWithMouse),
            Timer::MousePhase => Some(JigglyState::Settling),
            Timer::SettlingDelay => Some(JigglyState::Spinning),
            Timer::Jiggle => None,
            Timer::Warn10 => Some(JigglyState::Warning10),
            Timer::Warn5 => Some(JigglyState::Warning5),
            Timer::Shutdown => Some(JigglyState::Ending),
            Timer::FlashOff => Some(JigglyState::Breathing),
            Timer::QuietEnd => Some(JigglyState::PoweringDown),
        }
    }

    fn depth(self) -> (r: u8)
        ensures
            r == depth_of(owner_of(self)),
    {
        match self.owner().parent() {
            Some(_) => 2,
            None => 1,
        }
    }
}

/// What the chart remembers of the device.
#[derive(Debug, Clone, Copy, PartialEq, Eq, Structural)]
pub struct Ctx {
    /// When the active phase began, in microseconds since power-on.
    pub active_start: Option<u64>,
}

impl Ctx {
    /// Notes the beginning of the active phase.
    pub fn capture_active_start(&mut self, now: u64)
        ensures
            *final(self) == (Ctx { active_start: Some(now) }),
    {
        self.active_start = Some(now);
    }

    /// Microseconds since the active phase began; zero before it.
    pub fn active_elapsed(&self, now: u64) -> (r: u64)
        requires
            self.active_start matches Some(s) ==> s <= now,
        ensures
            r == match self.active_start {
                Some(s) => now - s,
                None => 0,
            },
    {
        match self.active_start {
            Some(s) => now - s,
            None => 0,
        }
    }
}

/// The running chart.
#[derive(Debug)]
pub struct Jiggly {
    knobs: Knobs,
    current: Option<JigglyState>,
    timers: Vec<TimerEntry>,
    queue: Vec<Ev>,
    overflow: bool,
    last: u64,
}

impl View for Jiggly {
    type V = ChartView;

    closed spec fn view(&self) -> ChartView {
        ChartView {
            knobs: self.knobs,
            current: self.current,
            timers: self.timers@,
            queue: self.queue@,
            overflow: self.overflow,
        }
    }
}

impl Jiggly {
    /// The instant up to which the timers have run.
    pub closed spec fn last_instant(&self) -> u64 {
        self.last
    }

    /// A chart that has not started, at instant `now`.
    pub fn new(knobs: Knobs, now: u64) -> (r: Jiggly)
        requires
            knobs.runnable(),
        ensures
            r@ == (ChartView {
                knobs,
                current: None,
                timers: Seq::empty(),
                queue: Seq::empty(),
                overflow: false,
            }),
            r@.wf(),
            r.last_instant() == now,
    {
        Jiggly {
            knobs,
            current: None,
            timers: Vec::new(),
            queue: Vec::new(),
            overflow: false,
            last: now,
        }
    }

    /// The innermost active state.
    pub fn current_state(&self) -> (r: Option<JigglyState>)
        ensures
            r == self@.current,
    {
        self.current
    }

    /// Whether an event waits in the queue. While one does, the driver advances
    /// the chart without waiting.
    pub fn has_pending_events(&self) -> (r: bool)
        ensures
            r == (self@.queue.len() > 0),
    {
        self.queue.len() > 0
    }

    /// Reports, and clears, a lost event. The driver stops the chart on one.
    pub fn take_overflow(&mut self) -> (r: bool)
        ensures
            r == old(self)@.overflow,
            final(self)@ == (ChartView { overflow: false, ..old(self)@ }),
            final(self).last_instant() == old(self).last_instant(),
    {
        let r = self.overflow;
        self.overflow = false;
        r
    }

    /// Microseconds until the next timer runs out; none if no timer runs.
    pub fn min_remaining(&self) -> (r: Option<u64>)
        ensures
            r is None <==> self@.timers.len() == 0,
            r matches Some(m) ==> {
                &&& exists|i: int|
                    0 <= i < self@.timers.len() && (#[trigger] self@.timers[i]).remaining == m
                &&& forall|i: int|
                    0 <= i < self@.timers.len() ==> (#[trigger] self@.timers[i]).remaining >= m
            },
    {
        if self.timers.len() == 0 {
            return None;
        }
        let mut m: u64 = self.timers[0].remaining;
        let mut i: usize = 1;
        assert(self.timers@[0].remaining == m);
        while i < self.timers.len()
            invariant
                1 <= i <= self.timers@.len(),
                exists|j: int|
                    0 <= j < self.timers@.len() && (#[trigger] self.timers@[j]).remaining == m,
                forall|j: int| 0 <= j < i ==> (#[trigger] self.timers@[j]).remaining >= m,
            decreases self.timers@.len() - i,
        {
            if self.timers[i].remaining < m {
                m = self.timers[i].remaining;
                assert(self.timers@[i as int].remaining == m);
            }
            i = i + 1;
        }
        Some(m)
    }

    /// Puts an event of an activity into the queue; it is lost if the queue is
    /// full.
    pub fn send(&mut self, e: Ev) -> (r: bool)
        ensures
            r == (old(self)@.queue.len() < QUEUE_CAPACITY),
            final(self)@ == old(self)@.sent(Some(e)),
            final(self).last_instant() == old(self).last_instant(),
    {
        if self.queue.len() < QUEUE_CAPACITY {
            self.queue.push(e);
            true
        } else {
            false
        }
    }

    fn start_timer(&mut self, t: Timer)
        requires
            old(self)@.knobs.runnable(),
        ensures
            final(self)@ == (ChartView {
                timers: start(old(self)@.timers, t, duration_of(old(self)@.knobs, t)),
                ..old(self)@
            }),
            final(self).last == old(self).last,
    {
        let d = t.duration(&self.knobs);
        let ghost before = self.timers@;
        let mut found = false;
        let mut i: usize = 0;
        while i < self.timers.len()
            invariant
                i <= self.timers@.len() == before.len(),
                d == duration_of(self.knobs, t),
                self.knobs == old(self).knobs,
                self.current == old(self).current,
                self.queue == old(self).queue,
                self.overflow == old(self).overflow,
                self.last == old(self).last,
                found == exists|j: int| 0 <= j < i && (#[trigger] before[j]).timer == t,
                forall|j: int|
                    0 <= j < i ==> #[trigger] self.timers@[j] == if before[j].timer == t {
                        entry(t, d as int)
                    } else {
                        before[j]
                    },
                forall|j: int| i <= j < before.len() ==> #[trigger] self.timers@[j] == before[j],
            decreases self.timers@.len() - i,
        {
            if self.timers[i].timer == t {
                self.timers.set(i, TimerEntry { timer: t, remaining: d });
                found = true;
                assert(before[i as int].timer == t);
            }
            i = i + 1;
        }
        if !found {
            self.timers.push(TimerEntry { timer: t, remaining: d });
        }
        assert(self.timers@ =~= start(before, t, d as int));
    }

    fn exit(&mut self, s: JigglyState)
        ensures
            final(self)@ == (ChartView { timers: cancel(old(self)@.timers, s), ..old(self)@ }),
            final(self).last == old(self).last,
    {
        let mut kept: Vec<TimerEntry> = Vec::new();
        let mut i: usize = 0;
        assert(self.timers@.take(0) =~= Seq::<TimerEntry>::empty());
        while i < self.timers.len()
            invariant
                i <= self.timers@.len(),
                kept@ == cancel(self.timers@.take(i as int), s),
            decreases self.timers@.len() - i,
        {
            let e = self.timers[i];
            proof {
                assert(self.timers@.take(i + 1).drop_last() =~= self.timers@.take(i as int));
                assert(self.timers@.take(i + 1).last() == e);
            }
            if e.timer.owner() != s {
                kept.push(e);
            }
            i = i + 1;
        }
        assert(self.timers@.take(i as int) =~= self.timers@);
        self.timers = kept;
    }

    fn enter(&mut self, s: JigglyState, acts: &mut Vec<Action>)
        requires
            old(self)@.knobs.runnable(),
        ensures
            final(self)@ == (ChartView {
                current: Some(s),
                timers: start_all(old(self)@.knobs, old(self)@.timers, timers_of(s)),
                ..old(self)@
            }),
            final(self).last == old(self).last,
            final(acts)@ == old(acts)@ + entry_actions(s),
    {
        proof {
            reveal_with_fuel(start_all, 5);
        }
        match s {
            JigglyState::WakingWithKeyboard => acts.push(Action::KeyboardWake),
            JigglyState::WakingWithMouse => acts.push(Action::MouseWake),
            JigglyState::Active => acts.push(Action::CaptureActiveStart),
            JigglyState::Flashing => acts.push(Action::PaintWhite),
            JigglyState::PoweringDown => {
                acts.push(Action::ShutdownFlashes);
                acts.push(Action::PowerOffNeo);
            },
            _ => {},
        }
        assert(acts@ =~= old(acts)@ + entry_actions(s));
        let ghost ts = self@.timers;
        let ghost k = self@.knobs;
        match s {
            JigglyState::WakingWithKeyboard => self.start_timer(Timer::KbdPhase),
            JigglyState::WakingWithMouse => self.start_timer(Timer::MousePhase),
            JigglyState::Settling => self.start_timer(Timer::SettlingDelay),
            JigglyState::Active => {
                self.start_timer(Timer::Jiggle);
                self.start_timer(Timer::Warn10);
                self.start_timer(Timer::Warn5);
                self.start_timer(Timer::Shutdown);
                proof {
                    let n = timers_of(s);
                    assert(n.drop_last() =~= seq![Timer::Jiggle, Timer::Warn10, Timer::Warn5]);
                    assert(n.drop_last().drop_last() =~= seq![Timer::Jiggle, Timer::Warn10]);
                    assert(n.drop_last().drop_last().drop_last() =~= seq![Timer::Jiggle]);
                    assert(n.drop_last().drop_last().drop_last().drop_last() =~= seq![]);
                }
            },
            JigglyState::Flashing => self.start_timer(Timer::FlashOff),
            JigglyState::Quiet => self.start_timer(Timer::QuietEnd),
            _ => {},
        }
        assert(self@.timers =~= start_all(k, ts, timers_of(s)));
        self.current = Some(s);
    }

    fn leave(&mut self, from: JigglyState, target: JigglyState)
        ensures
            final(self)@ == old(self)@.exit_all(exits(from, target)),
            final(self).last == old(self).last,
    {
        let ghost v = self@;
        let ghost mut done: Seq<JigglyState> = seq![];
        assert(v.exit_all(done) == v);
        if from == target || !from.is_on_path(target) {
            self.exit(from);
            proof {
                assert(done.push(from).drop_last() =~= done);
                done = done.push(from);
                assert(self@ == v.exit_all(done));
            }
        }
        match from.parent() {
            Some(p) => {
                if from != target && !p.is_on_path(target) {
                    self.exit(p);
                    proof {
                        assert(done.push(p).drop_last() =~= done);
                        done = done.push(p);
                        assert(self@ == v.exit_all(done));
                    }
                }
            },
            None => {},
        }
        assert(done =~= exits(from, target));
    }

    fn arrive(&mut self, from: JigglyState, target: JigglyState, acts: &mut Vec<Action>)
        requires
            old(self)@.knobs.runnable(),
        ensures
            final(self)@ == ({
                let v = old(self)@.enter_all(entries(from, target));
                if entries(from, target).len() == 0 {
                    ChartView { current: Some(target), ..v }
                } else {
                    v
                }
            }),
            final(self).last == old(self).last,
            final(acts)@ == old(acts)@ + actions_of(entries(from, target)),
    {
        let ghost v = self@;
        let ghost a = acts@;
        let ghost mut done: Seq<JigglyState> = seq![];
        assert(v.enter_all(done) == v);
        assert(acts@ =~= a + actions_of(done));
        match target.parent() {
            Some(p) => {
                if from != target && !p.is_on_path(from) {
                    self.enter(p, acts);
                    proof {
                        assert(done.push(p).drop_last() =~= done);
                        done = done.push(p);
                        assert(self@ == v.enter_all(done));
                        assert(acts@ =~= a + actions_of(done));
                    }
                }
            },
            None => {},
        }
        if from == target || !target.is_on_path(from) {
            self.enter(target, acts);
            proof {
                assert(done.push(target).drop_last() =~= done);
                done = done.push(target);
                assert(self@ == v.enter_all(done));
                assert(acts@ =~= a + actions_of(done));
            }
            match target.default_child() {
                Some(d) => {
                    self.enter(d, acts);
                    proof {
                        assert(done.push(d).drop_last() =~= done);
                        done = done.push(d);
                        assert(self@ == v.enter_all(done));
                        assert(acts@ =~= a + actions_of(done));
                    }
                },
                None => {},
            }
        } else {
            self.current = Some(target);
        }
        assert(done =~= entries(from, target));
    }

    fn go(&mut self, target: JigglyState, acts: &mut Vec<Action>)
        requires
            old(self)@.current is Some,
            old(self)@.knobs.runnable(),
        ensures
            final(self)@ == old(self)@.go(target),
            final(self).last == old(self).last,
            final(acts)@ == old(acts)@ + old(self)@.go_actions(target),
    {
        let from = match self.current {
            Some(c) => c,
            None => target,
        };
        proof {
            lemma_exit_keeps(self@, exits(from, target));
        }
        self.leave(from, target);
        self.arrive(from, target, acts);
    }

    /// Starts `e` on its way through the queue.
    fn emit(&mut self, e: Ev)
        ensures
            final(self)@ == old(self)@.emit(e),
            final(self).last == old(self).last,
    {
        if !self.overflow {
            if self.queue.len() < QUEUE_CAPACITY {
                self.queue.push(e);
            } else {
                self.overflow = true;
            }
        }
    }

    fn tick_timers(&mut self, elapsed: u64)
        ensures
            final(self)@ == (ChartView {
                timers: tick(old(self)@.timers, elapsed as int),
                ..old(self)@
            }),
            final(self).last == old(self).last,
    {
        let ghost before = self.timers@;
        let mut i: usize = 0;
        while i < self.timers.len()
            invariant
                i <= self.timers@.len() == before.len(),
                self.knobs == old(self).knobs,
                self.current == old(self).current,
                self.queue == old(self).queue,
                self.overflow == old(self).overflow,
                self.last == old(self).last,
                forall|j: int|
                    0 <= j < i ==> #[trigger] self.timers@[j] == entry(
                        before[j].timer,
                        crate::config::minus(before[j].remaining as int, elapsed as int),
                    ),
                forall|j: int| i <= j < before.len() ==> #[trigger] self.timers@[j] == before[j],
            decreases self.timers@.len() - i,
        {
            let e = self.timers[i];
            self.timers.set(
                i,
                TimerEntry { timer: e.timer, remaining: e.remaining.saturating_sub(elapsed) },
            );
            i = i + 1;
        }
        assert(self.timers@ =~= tick(before, elapsed as int));
    }

    fn next_fired(&self) -> (r: Option<usize>)
        ensures
            r matches Some(i) ==> fires(self@.timers, i as int),
            r is None ==> forall|i: int| !fires(self@.timers, i),
    {
        let mut best: Option<usize> = None;
        let mut i: usize = 0;
        while i < self.timers.len()
            invariant
                i <= self.timers@.len(),
                best is None ==> forall|j: int|
                    0 <= j < i ==> (#[trigger] self.timers@[j]).remaining != 0,
                best matches Some(b) ==> b < i && fires(self.timers@.take(i as int), b as int),
            decreases self.timers@.len() - i,
        {
            let e = self.timers[i];
            let ghost now = self.timers@.take(i + 1);
            let ghost seen = self.timers@.take(i as int);
            assert(forall|j: int| 0 <= j < i ==> now[j] == #[trigger] seen[j]);
            assert(now[i as int] == e);
            if e.remaining == 0 {
                match best {
                    None => {
                        best = Some(i);
                        assert(fires(now, i as int));
                    },
                    Some(b) => {
                        assert(seen[b as int] == self.timers@[b as int]);
                        if e.timer.depth() > self.timers[b].timer.depth() {
                            best = Some(i);
                            assert(fires(now, i as int));
                        } else {
                            assert(fires(now, b as int));
                        }
                    },
                }
            } else if let Some(b) = best {
                assert(seen[b as int] == self.timers@[b as int]);
                assert(fires(now, b as int));
            }
            i = i + 1;
        }
        assert(self.timers@.take(i as int) =~= self.timers@);
        best
    }

    /// Lets `elapsed` microseconds pass and does one unit of work: enters the
    /// first state, fires a timer that ran out, or handles an event. Returns
    /// the actions to perform, in order.
    pub fn step(&mut self, elapsed: u64) -> (acts: Vec<Action>)
        requires
            old(self)@.wf(),
        ensures
            old(self)@.steps_to(elapsed as int, final(self)@, acts@),
            final(self)@.wf(),
            final(self)@.current is Some,
            final(self).last_instant() == old(self).last_instant(),
    {
        let ghost v = self@;
        let mut acts: Vec<Action> = Vec::new();
        match self.current {
            None => {
                self.enter(JigglyState::Booting, &mut acts);
                proof {
                    reveal_with_fuel(ChartView::enter_all, 2);
                    assert(seq![JigglyState::Booting].drop_last() =~= seq![]);
                    assert(self@ == v.begin());
                    assert(acts@ =~= seq![]);
                }
            },
            Some(_) => {
                self.tick_timers(elapsed);
                let ghost w = self@;
                match self.next_fired() {
                    Some(i) => {
                        let t = self.timers.swap_remove(i).timer;
                        match t.target() {
                            Some(target) => self.go(target, &mut acts),
                            None => {
                                self.start_timer(t);
                                acts.push(Action::JigglePair);
                                self.emit(Ev::Jiggled);
                            },
                        }
                        assert(fires(w.timers, i as int));
                        assert(acts@ =~= w.fire(i as int).1);
                    },
                    None => {
                        if self.queue.len() > 0 {
                            let e = self.queue.remove(0);
                            assert(self.queue@ =~= w.queue.drop_first());
                            let from = match self.current {
                                Some(c) => c,
                                None => JigglyState::Booting,
                            };
                            match from.handler(e) {
                                Some(target) => self.go(target, &mut acts),
                                None => {},
                            }
                            assert(acts@ =~= w.handle().1);
                        }
                    },
                }
            },
        }
        proof {
            assert(v.steps_to(elapsed as int, self@, acts@));
            law_steps_keep_the_chart(v, elapsed as int, self@, acts@);
        }
        acts
    }

    /// Brings the chart up to instant `now` after an activity reported `e`, or
    /// a timer or a pending event called for a step, and does one unit of work.
    pub fn advance(&mut self, now: u64, e: Option<Ev>) -> (acts: Vec<Action>)
        requires
            old(self)@.wf(),
            old(self).last_instant() <= now,
        ensures
            old(self)@.sent(e).steps_to(now - old(self).last_instant(), final(self)@, acts@),
            final(self)@.wf(),
            final(self)@.current is Some,
            final(self).last_instant() == now,
    {
        match e {
            Some(ev) => {
                self.send(ev);
            },
            None => {},
        }
        let elapsed = now - self.last;
        self.last = now;
        self.step(elapsed)
    }
}

/// Leaving states touches only the timers.
proof fn lemma_exit_keeps(v: ChartView, ss: Seq<JigglyState>)
    ensures
        v.exit_all(ss) == (ChartView { timers: v.exit_all(ss).timers, ..v }),
    decreases ss.len(),
{
    if ss.len() > 0 {
        lemma_exit_keeps(v, ss.drop_last());
    }
}

// ---------------------------------------------------------------------------
// What the chart is.
// ---------------------------------------------------------------------------

/// Which states lie in which, and where entering one leads on to.
pub proof fn law_states_are_nested(s: JigglyState)
    ensures
        parent_of(s) == Some(JigglyState::WakingHost) <==> s is WakingWithKeyboard
            || s is WakingWithMouse,
        parent_of(s) == Some(JigglyState::Active) <==> s is Breathing || s is Flashing
            || s is Warning10 || s is Warning5,
        parent_of(s) == Some(JigglyState::Ending) <==> s is Spiraling || s is Quiet,
        parent_of(s) is None <==> s is Booting || s is WakingHost || s is Settling || s is Spinning
            || s is Active || s is Ending || s is PoweringDown,
        default_of(s) == Some(JigglyState::WakingWithKeyboard) <==> s is WakingHost,
        default_of(s) == Some(JigglyState::Breathing) <==> s is Active,
        default_of(s) == Some(JigglyState::Spiraling) <==> s is Ending,
        default_of(s) is Some ==> parent_of(default_of(s)->0) == Some(s),
        depth_of(s) == 2 <==> parent_of(s) is Some,
        depth_of(s) == 1 || depth_of(s) == 2,
{
}

/// A state is on the path of itself and of what lies in it, and of nothing else.
pub proof fn law_paths_run_upwards(s: JigglyState, leaf: JigglyState)
    ensures
        on_path(s, s),
        on_path(s, leaf) && s != leaf ==> parent_of(leaf) == Some(s),
        parent_of(leaf) is Some ==> on_path(parent_of(leaf)->0, leaf),
{
}

/// What runs in each resting state, said outright: the sweep while booting, the
/// blue pulse while either device wakes the host, the white pulse while settling,
/// spinner and fade together, the breathing, each warning's own spiral, and the
/// closing spiral over the fast red blink, which goes on in the silence after it.
/// Flashing and powering down run nothing.
pub proof fn law_states_run_their_activities()
    ensures
        durings_of(JigglyState::Booting) == seq![During::BootSweep],
        durings_of(JigglyState::WakingWithKeyboard) == seq![During::PulseBlue],
        durings_of(JigglyState::WakingWithMouse) == seq![During::PulseBlue],
        durings_of(JigglyState::Settling) == seq![During::PulseWhite],
        durings_of(JigglyState::Spinning) == seq![During::AnimateSpinner, During::FadeToGreen],
        durings_of(JigglyState::Breathing) == seq![During::BreatheColor],
        durings_of(JigglyState::Flashing) == Seq::<During>::empty(),
        durings_of(JigglyState::Warning10) == seq![During::AnimateWarning10],
        durings_of(JigglyState::Warning5) == seq![During::AnimateWarning5],
        durings_of(JigglyState::Spiraling) == seq![
            During::AnimateFinalSpiral,
            During::BlinkFastRed,
        ],
        durings_of(JigglyState::Quiet) == seq![During::BlinkFastRed],
        durings_of(JigglyState::PoweringDown) == Seq::<During>::empty(),
{
    assert(durings_of(JigglyState::WakingWithKeyboard) =~= seq![During::PulseBlue]);
    assert(durings_of(JigglyState::WakingWithMouse) =~= seq![During::PulseBlue]);
    assert(durings_of(JigglyState::Breathing) =~= seq![During::BreatheColor]);
    assert(durings_of(JigglyState::Flashing) =~= Seq::<During>::empty());
    assert(durings_of(JigglyState::Warning10) =~= seq![During::AnimateWarning10]);
    assert(durings_of(JigglyState::Warning5) =~= seq![During::AnimateWarning5]);
    assert(durings_of(JigglyState::Spiraling) =~= seq![
        During::AnimateFinalSpiral,
        During::BlinkFastRed,
    ]);
    assert(durings_of(JigglyState::Quiet) =~= seq![During::BlinkFastRed]);
}

/// Where each activity runs: the fast red blink in the ending and nowhere else,
/// the breathing where the device is active and neither flashes nor warns, and
/// every other in its own state.
pub proof fn law_activities_run_where_they_should(c: JigglyState)
    requires
        default_of(c) is None,
    ensures
        durings_of(c).contains(During::BlinkFastRed) <==> on_path(JigglyState::Ending, c),
        durings_of(c).contains(During::BreatheColor) <==> on_path(JigglyState::Active, c) && !(
        c is Flashing) && !(c is Warning10) && !(c is Warning5),
        durings_of(c).contains(During::PulseBlue) <==> on_path(JigglyState::WakingHost, c),
        durings_of(c).contains(During::PulseWhite) <==> c is Settling,
        durings_of(c).contains(During::FadeToGreen) <==> c is Spinning,
        durings_of(c).contains(During::AnimateSpinner) <==> c is Spinning,
        durings_of(c).contains(During::BootSweep) <==> c is Booting,
        durings_of(c).contains(During::AnimateWarning10) <==> c is Warning10,
        durings_of(c).contains(During::AnimateWarning5) <==> c is Warning5,
        durings_of(c).contains(During::AnimateFinalSpiral) <==> c is Spiraling,
{
    law_states_run_their_activities();
    let ds = durings_of(c);
    assert(ds.len() >= 1 ==> ds.contains(ds[0]));
    assert(ds.len() >= 2 ==> ds.contains(ds[1]));
}

/// The LED's activities are these six; the other four move the cursor.
pub proof fn law_some_activities_use_the_led(d: During)
    ensures
        uses_led(d) <==> !(d is AnimateSpinner || d is AnimateWarning10 || d is AnimateWarning5
            || d is AnimateFinalSpiral),
{
}

/// What each activity reports when it is done; those that breathe, pulse, fade or
/// blink are never done.
pub proof fn law_activities_report_their_end(d: During)
    ensures
        completion_of(d) == Some(Ev::BootDone) <==> d is BootSweep,
        completion_of(d) == Some(Ev::SpinDone) <==> d is AnimateSpinner,
        completion_of(d) == Some(Ev::WarnDone) <==> d is AnimateWarning10 || d is AnimateWarning5,
        completion_of(d) == Some(Ev::SpiralDone) <==> d is AnimateFinalSpiral,
        completion_of(d) != Some(Ev::Jiggled),
{
}

/// Where each event leads, and from where: the end of the sweep to waking the
/// host, that of the spinner to the active phase, a jiggle from the breathing to
/// its flash, the end of a warning back to the breathing, that of the closing
/// spiral to the silence; everywhere else an event leads nowhere.
pub proof fn law_events_lead_on(c: JigglyState, e: Ev)
    ensures
        handler_of(c, Ev::BootDone) == (if c is Booting {
            Some(JigglyState::WakingHost)
        } else {
            None
        }),
        handler_of(c, Ev::SpinDone) == (if c is Spinning {
            Some(JigglyState::Active)
        } else {
            None
        }),
        handler_of(c, Ev::Jiggled) == (if c is Breathing {
            Some(JigglyState::Flashing)
        } else {
            None
        }),
        handler_of(c, Ev::WarnDone) == (if c is Warning10 || c is Warning5 {
            Some(JigglyState::Breathing)
        } else {
            None
        }),
        handler_of(c, Ev::SpiralDone) == (if c is Spiraling {
            Some(JigglyState::Quiet)
        } else {
            None
        }),
{
}

/// What entering a state asks for.
pub proof fn law_states_act_on_entry(s: JigglyState)
    ensures
        entry_actions(s) == (if s is WakingWithKeyboard {
            seq![Action::KeyboardWake]
        } else if s is WakingWithMouse {
            seq![Action::MouseWake]
        } else if s is Active {
            seq![Action::CaptureActiveStart]
        } else if s is Flashing {
            seq![Action::PaintWhite]
        } else if s is PoweringDown {
            seq![Action::ShutdownFlashes, Action::PowerOffNeo]
        } else {
            Seq::<Action>::empty()
        }),
{
}

/// Where each timer leads and how long it runs, in microseconds.
pub proof fn law_timers_lead_on(k: Knobs)
    ensures
        target_of(Timer::KbdPhase) == Some(JigglyState::WakingWithMouse),
        target_of(Timer::MousePhase) == Some(JigglyState::Settling),
        target_of(Timer::SettlingDelay) == Some(JigglyState::Spinning),
        target_of(Timer::Jiggle) is None,
        target_of(Timer::Warn10) == Some(JigglyState::Warning10),
        target_of(Timer::Warn5) == Some(JigglyState::Warning5),
        target_of(Timer::Shutdown) == Some(JigglyState::Ending),
        target_of(Timer::FlashOff) == Some(JigglyState::Breathing),
        target_of(Timer::QuietEnd) == Some(JigglyState::PoweringDown),
        duration_of(k, Timer::KbdPhase) == 550_000,
        duration_of(k, Timer::MousePhase) == 1_050_000,
        duration_of(k, Timer::SettlingDelay) == 2_000_000,
        duration_of(k, Timer::Jiggle) == 270_000_000,
        duration_of(k, Timer::FlashOff) == 100_000,
        duration_of(k, Timer::QuietEnd) == 25_000_000,
        k.rt >= 11 ==> duration_of(k, Timer::Shutdown) == 60_000_000 * k.rt - 30_000_000,
        k.rt >= 11 ==> duration_of(k, Timer::Warn10) + 600_000_000 == duration_of(
            k,
            Timer::Shutdown,
        ),
        k.rt >= 11 ==> duration_of(k, Timer::Warn5) + 300_000_000 == duration_of(
            k,
            Timer::Shutdown,
        ),
{
}

/// A state starts the timers that it owns, each once, and no other.
pub proof fn law_states_start_their_timers(s: JigglyState, t: Timer)
    ensures
        timers_of(s).contains(t) <==> owner_of(t) == s,
        timers_of(s).no_duplicates(),
        owner_of(t) is Active <==> t is Jiggle || t is Warn10 || t is Warn5 || t is Shutdown,
        owner_of(t) is WakingWithKeyboard <==> t is KbdPhase,
        owner_of(t) is WakingWithMouse <==> t is MousePhase,
        owner_of(t) is Settling <==> t is SettlingDelay,
        owner_of(t) is Flashing <==> t is FlashOff,
        owner_of(t) is Quiet <==> t is QuietEnd,
        timers_of(JigglyState::Active) == seq![
            Timer::Jiggle,
            Timer::Warn10,
            Timer::Warn5,
            Timer::Shutdown,
        ],
{
    lemma_timers_of(s, t);
}

/// Time passes evenly for every timer: two waits are one of their sum, no wait
/// changes nothing, and a timer has run out exactly when it has waited for all
/// that it had left.
pub proof fn law_time_passes_evenly(ts: Seq<TimerEntry>, a: int, b: int, i: int)
    requires
        a >= 0,
        b >= 0,
        0 <= i < ts.len(),
    ensures
        tick(tick(ts, a), b) == tick(ts, a + b),
        tick(ts, 0) == ts,
        tick(ts, a).len() == ts.len(),
        tick(ts, a)[i].timer == ts[i].timer,
        a <= ts[i].remaining ==> tick(ts, a)[i].remaining == ts[i].remaining - a,
        tick(ts, a)[i].remaining == 0 <==> ts[i].remaining <= a,
{
    assert(tick(tick(ts, a), b) =~= tick(ts, a + b));
    assert(tick(ts, 0) =~= ts);
}

/// Of the timers that have run out, one of a nested state goes before one of an
/// outer state, and the first in the table before the others; and none that has
/// time left goes at all.
pub proof fn law_deepest_timer_goes_first(ts: Seq<TimerEntry>, i: int, j: int)
    requires
        fires(ts, i),
        0 <= j < ts.len(),
        ts[j].remaining == 0,
    ensures
        0 <= i < ts.len(),
        ts[i].remaining == 0,
        parent_of(owner_of(ts[j].timer)) is Some ==> parent_of(owner_of(ts[i].timer)) is Some,
        (parent_of(owner_of(ts[j].timer)) is Some) == (parent_of(owner_of(ts[i].timer)) is Some)
            ==> i <= j,
{
}

/// A timer that is taken out leaves the table one shorter, its place to the last,
/// and all others where they were.
pub proof fn law_taking_out_keeps_the_others(ts: Seq<TimerEntry>, i: int, j: int)
    requires
        0 <= i < ts.len(),
        0 <= j < ts.len() - 1,
    ensures
        take_out(ts, i).len() == ts.len() - 1,
        j == i ==> take_out(ts, i)[j] == ts[ts.len() - 1],
        j != i ==> take_out(ts, i)[j] == ts[j],
{
}

/// Starting a timer gives it its full time, in the place where it ran or else at
/// the end, and changes no other.
pub proof fn law_starting_keeps_the_others(ts: Seq<TimerEntry>, t: Timer, d: int, i: int)
    requires
        0 <= d <= u64::MAX,
        0 <= i < ts.len(),
    ensures
        ts[i].timer != t ==> start(ts, t, d)[i] == ts[i],
        ts[i].timer == t ==> start(ts, t, d)[i].timer == t && start(ts, t, d)[i].remaining == d,
        armed(ts, t) ==> start(ts, t, d).len() == ts.len(),
        !armed(ts, t) ==> start(ts, t, d).len() == ts.len() + 1 && start(
            ts,
            t,
            d,
        ).last().remaining == d && start(ts, t, d).last().timer == t,
{
}

/// Leaving a state stops the timers that it owns, and only those; the others stay
/// in their order with the time that they had.
pub proof fn law_leaving_stops_its_timers(
    ts: Seq<TimerEntry>,
    us: Seq<TimerEntry>,
    e: TimerEntry,
    s: JigglyState,
)
    ensures
        cancel(ts + us, s) == cancel(ts, s) + cancel(us, s),
        owner_of(e.timer) == s ==> cancel(seq![e], s) == Seq::<TimerEntry>::empty(),
        owner_of(e.timer) != s ==> cancel(seq![e], s) == seq![e],
    decreases us.len(),
{
    assert(seq![e].drop_last() =~= Seq::<TimerEntry>::empty());
    assert(cancel(Seq::<TimerEntry>::empty(), s) =~= Seq::<TimerEntry>::empty());
    assert(Seq::<TimerEntry>::empty().push(e) =~= seq![e]);
    if us.len() == 0 {
        assert(ts + us =~= ts);
        assert(cancel(ts, s) + cancel(us, s) =~= cancel(ts, s));
    } else {
        assert((ts + us).drop_last() =~= ts + us.drop_last());
        assert((ts + us).last() == us.last());
        law_leaving_stops_its_timers(ts, us.drop_last(), e, s);
        assert(cancel(ts + us, s) =~= cancel(ts, s) + cancel(us, s));
    }
}

/// The queue takes eight events, in the order in which they come, and one that
/// finds it full is lost: without a trace where it was reported, with a flag where
/// the chart told itself.
pub proof fn law_queue_takes_eight(v: ChartView, e: Ev)
    ensures
        ({
            let (s, m) = (v.sent(Some(e)), v.emit(e));
            &&& v.sent(None) == v
            &&& v.queue.len() < 8 ==> s.queue == v.queue.push(e) && s.overflow == v.overflow
            &&& v.queue.len() >= 8 ==> s == v
            &&& s.current == v.current && s.timers == v.timers && s.knobs == v.knobs
            &&& m.current == v.current && m.timers == v.timers && m.knobs == v.knobs
            &&& !v.overflow && v.queue.len() < 8 ==> m.queue == v.queue.push(e) && !m.overflow
            &&& !v.overflow && v.queue.len() >= 8 ==> m.queue == v.queue && m.overflow
            &&& v.overflow ==> m == v
        }),
{
}

/// A chart that has not started does so with its first step, whatever time has
/// passed: it boots, with no timer and nothing asked for.
pub proof fn law_first_step_boots(v: ChartView, elapsed: int, next: ChartView, acts: Seq<Action>)
    requires
        v.wf(),
        v.current is None,
        v.steps_to(elapsed, next, acts),
    ensures
        next.current == Some(JigglyState::Booting),
        next.timers.len() == 0,
        next.queue == v.queue,
        next.knobs == v.knobs,
        next.overflow == v.overflow,
        acts.len() == 0,
{
    reveal_with_fuel(ChartView::enter_all, 2);
    reveal_with_fuel(start_all, 2);
    assert(seq![JigglyState::Booting].drop_last() =~= seq![]);
}

} // verus!
