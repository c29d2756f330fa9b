//! What the chart promises over its whole life.
use vstd::prelude::*;

use crate::chart::{Action, ChartView, Ev, JigglyState, Timer, TimerEntry};
use crate::config::{Knobs, JIGGLE_PERIOD, WARN_10_LEAD, WARN_5_LEAD};

verus! {

/// What a step of a started chart came from.
pub enum Cause {
    /// A timer ran out.
    Fired(Timer),
    /// An event left the queue.
    Handled(Ev),
    /// Nothing was due.
    Idle,
}

/// What `t` has left after `elapsed` microseconds.
pub open spec fn later(v: ChartView, elapsed: int, t: Timer) -> Option<int> {
    match crate::chart::left(v.timers, t) {
        Some(r) => Some(crate::config::minus(r, elapsed)),
        None => None,
    }
}

/// Where a move from `c` to `target` ends up.
pub open spec fn landing(c: JigglyState, target: JigglyState) -> JigglyState {
    if crate::chart::default_of(target) is Some && !(c != target && crate::chart::on_path(
        target,
        c,
    )) {
        crate::chart::default_of(target)->0
    } else {
        target
    }
}

/// What `t` has left after a move from `c` to `target`, with `before` left.
pub open spec fn moved(
    k: Knobs,
    c: JigglyState,
    target: JigglyState,
    t: Timer,
    before: Option<int>,
) -> Option<int> {
    let owner = crate::chart::owner_of(t);
    if crate::chart::is_entered(c, target, owner) {
        Some(crate::chart::duration_of(k, t))
    } else if crate::chart::is_left(c, target, owner) {
        None
    } else {
        before
    }
}

/// `cause` accounts for the step from `v` to `next`.
pub open spec fn accounts(
    v: ChartView,
    elapsed: int,
    next: ChartView,
    acts: Seq<Action>,
    cause: Cause,
) -> bool {
    let c = v.current->0;
    match cause {
        Cause::Fired(t0) => {
            &&& later(v, elapsed, t0) == Some(0int)
            &&& match crate::chart::target_of(t0) {
                Some(target) => {
                    &&& next.current == Some(landing(c, target))
                    &&& next.queue == v.queue
                    &&& acts == crate::chart::actions_of(crate::chart::entries(c, target))
                    &&& forall|t: Timer|
                        #[trigger] crate::chart::left(next.timers, t) == moved(
                            v.knobs,
                            c,
                            target,
                            t,
                            if t == t0 {
                                None
                            } else {
                                later(v, elapsed, t)
                            },
                        )
                },
                None => {
                    &&& next.current == v.current
                    &&& acts == seq![Action::JigglePair]
                    &&& forall|t: Timer|
                        #[trigger] crate::chart::left(next.timers, t) == if t == t0 {
                            Some(crate::chart::duration_of(v.knobs, t))
                        } else {
                            later(v, elapsed, t)
                        }
                },
            }
        },
        Cause::Handled(e) => {
            &&& v.queue.len() > 0
            &&& e == v.queue[0]
            &&& next.queue == v.queue.drop_first()
            &&& match crate::chart::handler_of(c, e) {
                Some(target) => {
                    &&& next.current == Some(landing(c, target))
                    &&& acts == crate::chart::actions_of(crate::chart::entries(c, target))
                    &&& forall|t: Timer|
                        #[trigger] crate::chart::left(next.timers, t) == moved(
                            v.knobs,
                            c,
                            target,
                            t,
                            later(v, elapsed, t),
                        )
                },
                None => {
                    &&& next.current == v.current
                    &&& acts == Seq::<Action>::empty()
                    &&& forall|t: Timer|
                        #[trigger] crate::chart::left(next.timers, t) == later(v, elapsed, t)
                },
            }
        },
        Cause::Idle => {
            &&& next.current == v.current
            &&& next.queue == v.queue
            &&& acts == Seq::<Action>::empty()
            &&& forall|t: Timer|
                #[trigger] crate::chart::left(next.timers, t) == later(v, elapsed, t)
        },
    }
}

/// Every step of a started chart has a cause; while a timer is due, that cause is
/// a timer, and it is nothing only where no event waits.
pub proof fn lemma_step(v: ChartView, elapsed: int, next: ChartView, acts: Seq<Action>) -> (cause:
    Cause)
    requires
        v.wf(),
        v.current is Some,
        elapsed >= 0,
        v.steps_to(elapsed, next, acts),
    ensures
        next.wf(),
        next.knobs == v.knobs,
        next.current is Some,
        accounts(v, elapsed, next, acts, cause),
        (exists|t: Timer| later(v, elapsed, t) == Some(0int)) ==> cause is Fired,
        cause is Idle ==> v.queue.len() == 0,
{
    crate::chart::law_steps_keep_the_chart(v, elapsed, next, acts);
    let ts = crate::chart::tick(v.timers, elapsed);
    let w = ChartView { timers: ts, ..v };
    let c = v.current->0;
    crate::chart::lemma_tick(v.timers, elapsed);
    if exists|i: int| crate::chart::fires(ts, i) {
        let i = choose|i: int|
            #[trigger] crate::chart::fires(ts, i) && (next, acts) == w.fire(i);
        let t0 = ts[i].timer;
        crate::chart::lemma_left(ts, i);
        assert(crate::chart::left(ts, t0) == Some(0int));
        crate::chart::lemma_take_out(ts, i);
        let u = ChartView { timers: crate::chart::take_out(ts, i), ..w };
        match crate::chart::target_of(t0) {
            Some(target) => {
                crate::chart::lemma_go(u, target);
            },
            None => {
                crate::chart::lemma_duration(v.knobs, t0);
                crate::chart::lemma_start(
                    u.timers,
                    t0,
                    crate::chart::duration_of(v.knobs, t0),
                );
            },
        }
        Cause::Fired(t0)
    } else {
        assert forall|t: Timer| later(v, elapsed, t) != Some(0int) by {
            if later(v, elapsed, t) == Some(0int) {
                assert(crate::chart::left(ts, t) == Some(0int));
                let i = crate::chart::lemma_left_is(ts, t);
                lemma_some_fires(ts, i);
            }
        }
        if w.queue.len() > 0 {
            let u = ChartView { queue: w.queue.drop_first(), ..w };
            if let Some(target) = crate::chart::handler_of(c, w.queue[0]) {
                crate::chart::lemma_go(u, target);
            }
            Cause::Handled(v.queue[0])
        } else {
            Cause::Idle
        }
    }
}

/// Where a timer has run out, one fires.
proof fn lemma_some_fires(ts: Seq<TimerEntry>, i: int) -> (r: int)
    requires
        0 <= i < ts.len(),
        ts[i].remaining == 0,
    ensures
        crate::chart::fires(ts, r),
    decreases 3 - crate::chart::depth_of(crate::chart::owner_of(ts[i].timer)), i,
{
    if crate::chart::fires(ts, i) {
        i
    } else {
        let di = crate::chart::depth_of(crate::chart::owner_of(ts[i].timer));
        let j = choose|j: int|
            0 <= j < ts.len() && (#[trigger] ts[j]).remaining == 0 && !(crate::chart::depth_of(
                crate::chart::owner_of(ts[j].timer),
            ) < di || (crate::chart::depth_of(crate::chart::owner_of(ts[j].timer)) == di && i
                <= j));
        lemma_some_fires(ts, j)
    }
}

/// How far along its life the device is.
pub open spec fn phase_of(s: JigglyState) -> int {
    match s {
        JigglyState::Booting => 0,
        JigglyState::WakingHost
        | JigglyState::WakingWithKeyboard
        | JigglyState::WakingWithMouse => 1,
        JigglyState::Settling => 2,
        JigglyState::Spinning => 3,
        JigglyState::Active
        | JigglyState::Breathing
        | JigglyState::Flashing
        | JigglyState::Warning10
        | JigglyState::Warning5 => 4,
        JigglyState::Ending | JigglyState::Spiraling | JigglyState::Quiet => 5,
        JigglyState::PoweringDown => 6,
    }
}

/// The device lives forward: booting, waking the host, settling, spinning,
/// active, ending, powering down, in this order, never back, and never past a
/// phase.
#[verifier::rlimit(30)]
pub proof fn law_phases_advance_in_order(
    v: ChartView,
    elapsed: int,
    next: ChartView,
    acts: Seq<Action>,
)
    requires
        v.wf(),
        v.current is Some,
        elapsed >= 0,
        v.steps_to(elapsed, next, acts),
    ensures
        phase_of(v.current->0) <= phase_of(next.current->0) <= phase_of(v.current->0) + 1,
{
    let cause = lemma_step(v, elapsed, next, acts);
}

/// Power-down is the end: from there no step does anything, and nothing is due.
pub proof fn law_power_down_is_final(
    v: ChartView,
    elapsed: int,
    next: ChartView,
    acts: Seq<Action>,
)
    requires
        v.wf(),
        v.current == Some(JigglyState::PoweringDown),
        elapsed >= 0,
        v.steps_to(elapsed, next, acts),
    ensures
        next.current == Some(JigglyState::PoweringDown),
        acts == Seq::<Action>::empty(),
        v.timers.len() == 0,
        next.timers.len() == 0,
{
    let cause = lemma_step(v, elapsed, next, acts);
    if v.timers.len() > 0 {
        crate::chart::lemma_left(v.timers, 0);
        assert(crate::chart::on_path(
            crate::chart::owner_of(v.timers[0].timer),
            JigglyState::PoweringDown,
        ));
    }
    if next.timers.len() > 0 {
        crate::chart::lemma_left(next.timers, 0);
        assert(crate::chart::on_path(
            crate::chart::owner_of(next.timers[0].timer),
            JigglyState::PoweringDown,
        ));
    }
}

/// `s` belongs to the active phase.
pub open spec fn is_active(v: ChartView) -> bool {
    v.current is Some && crate::chart::on_path(JigglyState::Active, v.current->0)
}

/// The active phase holds until the shutdown timer runs out, whatever is
/// reported and whichever other timer fires, and that timer counts every
/// microsecond.
pub proof fn law_active_holds(v: ChartView, elapsed: int, next: ChartView, acts: Seq<Action>)
    requires
        v.wf(),
        is_active(v),
        elapsed >= 0,
        v.steps_to(elapsed, next, acts),
        crate::chart::left(v.timers, Timer::Shutdown)->0 > elapsed,
    ensures
        is_active(next),
        crate::chart::left(next.timers, Timer::Shutdown) == Some(
            crate::chart::left(v.timers, Timer::Shutdown)->0 - elapsed,
        ),
{
    assert(crate::chart::left(v.timers, Timer::Shutdown) is Some);
    let cause = lemma_step(v, elapsed, next, acts);
}

/// One turn of the driver: what was reported, if anything, and how long it
/// took.
pub struct Turn {
    pub event: Option<Ev>,
    pub elapsed: nat,
}

/// `w` is where the chart can be after `turns`.
pub open spec fn runs_to(v: ChartView, turns: Seq<Turn>, w: ChartView) -> bool
    decreases turns.len(),
{
    if turns.len() == 0 {
        w == v
    } else {
        exists|u: ChartView, acts: Seq<Action>|
            runs_to(v, turns.drop_last(), u) && #[trigger] u.sent(turns.last().event).steps_to(
                turns.last().elapsed as int,
                w,
                acts,
            )
    }
}

/// The time that `turns` took.
pub open spec fn time_of(turns: Seq<Turn>) -> int
    decreases turns.len(),
{
    if turns.len() == 0 {
        0
    } else {
        time_of(turns.drop_last()) + turns.last().elapsed
    }
}

proof fn lemma_time_is_positive(turns: Seq<Turn>)
    ensures
        time_of(turns) >= 0,
    decreases turns.len(),
{
    if turns.len() > 0 {
        lemma_time_is_positive(turns.drop_last());
    }
}

/// Over any number of turns the chart stays sound and the device never goes back
/// to an earlier phase.
pub proof fn law_runs_never_go_back(v: ChartView, turns: Seq<Turn>, w: ChartView)
    requires
        v.wf(),
        v.current is Some,
        runs_to(v, turns, w),
    ensures
        w.wf(),
        w.knobs == v.knobs,
        w.current is Some,
        phase_of(v.current->0) <= phase_of(w.current->0),
    decreases turns.len(),
{
    if turns.len() > 0 {
        let d = turns.drop_last();
        let (u, acts) = choose|u: ChartView, acts: Seq<Action>|
            runs_to(v, d, u) && #[trigger] u.sent(turns.last().event).steps_to(
                turns.last().elapsed as int,
                w,
                acts,
            );
        law_runs_never_go_back(v, d, u);
        let x = u.sent(turns.last().event);
        lemma_step(x, turns.last().elapsed as int, w, acts);
        law_phases_advance_in_order(x, turns.last().elapsed as int, w, acts);
    }
}

/// Once active, the device stays active for all of its run time: however the
/// driver's turns fall, it has not begun to end while less time than the
/// shutdown timer had left has passed.
pub proof fn law_active_runs_its_time(v: ChartView, turns: Seq<Turn>, w: ChartView)
    requires
        v.wf(),
        is_active(v),
        runs_to(v, turns, w),
        time_of(turns) < crate::chart::left(v.timers, Timer::Shutdown)->0,
    ensures
        w.wf(),
        is_active(w),
        crate::chart::left(w.timers, Timer::Shutdown) == Some(
            crate::chart::left(v.timers, Timer::Shutdown)->0 - time_of(turns),
        ),
    decreases turns.len(),
{
    assert(crate::chart::left(v.timers, Timer::Shutdown) is Some);
    if turns.len() > 0 {
        let d = turns.drop_last();
        let (u, acts) = choose|u: ChartView, acts: Seq<Action>|
            runs_to(v, d, u) && #[trigger] u.sent(turns.last().event).steps_to(
                turns.last().elapsed as int,
                w,
                acts,
            );
        law_active_runs_its_time(v, d, u);
        let x = u.sent(turns.last().event);
        assert(x.wf());
        lemma_step(x, turns.last().elapsed as int, w, acts);
        law_active_holds(x, turns.last().elapsed as int, w, acts);
    }
}

/// Entering the active phase starts its clock: the shutdown timer has the whole
/// run time left, and both warnings are set.
#[verifier::rlimit(30)]
pub proof fn law_active_starts_its_clock(
    v: ChartView,
    elapsed: int,
    next: ChartView,
    acts: Seq<Action>,
)
    requires
        v.wf(),
        v.current is Some,
        !is_active(v),
        elapsed >= 0,
        v.steps_to(elapsed, next, acts),
        is_active(next),
    ensures
        v.current == Some(JigglyState::Spinning),
        next.current == Some(JigglyState::Breathing),
        acts == seq![Action::CaptureActiveStart],
        crate::chart::left(next.timers, Timer::Shutdown) == Some(v.knobs.run_before_shutdown_us()),
        crate::chart::left(next.timers, Timer::Jiggle) == Some(JIGGLE_PERIOD as int),
        crate::chart::left(next.timers, Timer::Warn10) is Some,
        crate::chart::left(next.timers, Timer::Warn5) is Some,
{
    let cause = lemma_step(v, elapsed, next, acts);
    let e = crate::chart::entries(JigglyState::Spinning, JigglyState::Active);
    assert(e =~= seq![JigglyState::Active, JigglyState::Breathing]);
    assert(e.drop_last() =~= seq![JigglyState::Active]);
    assert(e.drop_last().drop_last() =~= seq![]);
    reveal_with_fuel(crate::chart::actions_of, 3);
    assert(crate::chart::actions_of(e) =~= seq![Action::CaptureActiveStart]);
    assert(crate::chart::left(next.timers, Timer::Shutdown) is Some);
    assert(crate::chart::left(next.timers, Timer::Jiggle) is Some);
}

/// A timer counts as due.
pub open spec fn due(v: ChartView, t: Timer) -> int {
    if crate::chart::left(v.timers, t) == Some(0int) {
        1
    } else {
        0
    }
}

/// How many timers of the active phase are due.
pub open spec fn due_count(v: ChartView) -> int {
    due(v, Timer::Jiggle) + due(v, Timer::Warn10) + due(v, Timer::Warn5) + due(v, Timer::Shutdown)
        + due(v, Timer::FlashOff)
}

/// Once the shutdown timer has run out, the ending is at most five steps away:
/// each further step either begins it or uses up a timer that was due as well.
#[verifier::rlimit(30)]
pub proof fn law_expired_shutdown_ends(v: ChartView, next: ChartView, acts: Seq<Action>)
    requires
        v.wf(),
        is_active(v),
        v.steps_to(0, next, acts),
        crate::chart::left(v.timers, Timer::Shutdown) == Some(0int),
    ensures
        1 <= due_count(v) <= 5,
        next.current == Some(JigglyState::Spiraling) || {
            &&& is_active(next)
            &&& crate::chart::left(next.timers, Timer::Shutdown) == Some(0int)
            &&& due_count(next) < due_count(v)
        },
{
    assert(later(v, 0, Timer::Shutdown) == Some(0int));
    let cause = lemma_step(v, 0, next, acts);
}

/// A warning shows only when its time has come: the ten-minute spiral within ten
/// minutes of the ending, the five-minute spiral within five; and before that
/// each is set to fire at exactly that time.
pub proof fn law_warnings_keep_time(v: ChartView)
    requires
        v.wf(),
        is_active(v),
    ensures
        ({
            let rest = crate::chart::left(v.timers, Timer::Shutdown)->0;
            &&& v.current == Some(JigglyState::Warning10) ==> rest <= WARN_10_LEAD
            &&& v.current == Some(JigglyState::Warning5) ==> rest <= WARN_5_LEAD
            &&& rest > WARN_10_LEAD ==> crate::chart::left(v.timers, Timer::Warn10) == Some(
                rest - WARN_10_LEAD,
            )
            &&& rest > WARN_5_LEAD ==> crate::chart::left(v.timers, Timer::Warn5) == Some(
                rest - WARN_5_LEAD,
            )
        }),
{
}

/// A warning fires once: after that it is not set again.
pub proof fn law_warning_fires_once(
    v: ChartView,
    elapsed: int,
    next: ChartView,
    acts: Seq<Action>,
    t: Timer,
)
    requires
        v.wf(),
        v.current is Some,
        phase_of(v.current->0) >= 4,
        elapsed >= 0,
        v.steps_to(elapsed, next, acts),
        t == Timer::Warn10 || t == Timer::Warn5,
        crate::chart::left(v.timers, t) is None,
    ensures
        crate::chart::left(next.timers, t) is None,
{
    let cause = lemma_step(v, elapsed, next, acts);
}

/// The cursor is nudged only in the active phase and only when the jiggle timer
/// has run its full period; the nudge changes no state and starts the next
/// period.
pub proof fn law_jiggle_waits_its_period(
    v: ChartView,
    elapsed: int,
    next: ChartView,
    acts: Seq<Action>,
)
    requires
        v.wf(),
        v.current is Some,
        elapsed >= 0,
        v.steps_to(elapsed, next, acts),
        acts.contains(Action::JigglePair),
    ensures
        is_active(v),
        acts == seq![Action::JigglePair],
        later(v, elapsed, Timer::Jiggle) == Some(0int),
        next.current == v.current,
        crate::chart::left(next.timers, Timer::Jiggle) == Some(JIGGLE_PERIOD as int),
{
    let cause = lemma_step(v, elapsed, next, acts);
    match cause {
        Cause::Fired(t0) => {
            if let Some(target) = crate::chart::target_of(t0) {
                lemma_entry_never_jiggles(crate::chart::entries(v.current->0, target));
            }
        },
        Cause::Handled(e) => {
            if let Some(target) = crate::chart::handler_of(v.current->0, e) {
                lemma_entry_never_jiggles(crate::chart::entries(v.current->0, target));
            }
        },
        Cause::Idle => {},
    }
}

/// While the device is active the jiggles keep coming: the next one is always
/// set, at most a period away; and when it alone is due, the step jiggles.
pub proof fn law_jiggles_keep_coming(
    v: ChartView,
    elapsed: int,
    next: ChartView,
    acts: Seq<Action>,
)
    requires
        v.wf(),
        is_active(v),
        elapsed >= 0,
        v.steps_to(elapsed, next, acts),
    ensures
        crate::chart::left(v.timers, Timer::Jiggle) is Some,
        crate::chart::left(v.timers, Timer::Jiggle)->0 <= JIGGLE_PERIOD,
        later(v, elapsed, Timer::Jiggle) == Some(0int) && (forall|t: Timer|
            t != Timer::Jiggle ==> later(v, elapsed, t) != Some(0int)) ==> acts
            == seq![Action::JigglePair],
{
    assert(crate::chart::left(v.timers, Timer::Jiggle) is Some);
    let cause = lemma_step(v, elapsed, next, acts);
}

proof fn lemma_entry_never_jiggles(ss: Seq<JigglyState>)
    ensures
        !crate::chart::actions_of(ss).contains(Action::JigglePair),
    decreases ss.len(),
{
    if ss.len() > 0 {
        lemma_entry_never_jiggles(ss.drop_last());
        let a = crate::chart::actions_of(ss.drop_last());
        let b = crate::chart::entry_actions(ss.last());
        assert forall|i: int| 0 <= i < (a + b).len() implies (a + b)[i] != Action::JigglePair by {
            if i < a.len() {
                assert(a.contains(a[i]));
            } else {
                assert((a + b)[i] == b[i - a.len()]);
            }
        }
    }
}

/// A report that nobody waits for changes nothing: outside the breathing state a
/// jiggle is dropped.
pub proof fn law_jiggle_flashes_only_from_breathing(c: JigglyState)
    ensures
        crate::chart::handler_of(c, Ev::Jiggled) == if c == JigglyState::Breathing {
            Some(JigglyState::Flashing)
        } else {
            None
        },
{
}

/// No two activities of a state work the same device: at most one paints the
/// LED, and at most one moves the cursor.
pub proof fn law_activities_share_nothing(c: JigglyState, i: int, j: int)
    requires
        0 <= i < j < crate::chart::durings_of(c).len(),
    ensures
        crate::chart::uses_led(crate::chart::durings_of(c)[i]) != crate::chart::uses_led(crate::chart::durings_of(c)[j]),
{
}

/// What an activity reports is what its state waits for.
pub proof fn law_reports_are_handled(c: JigglyState, i: int)
    requires
        0 <= i < crate::chart::durings_of(c).len(),
        crate::chart::completion_of(crate::chart::durings_of(c)[i]) is Some,
    ensures
        crate::chart::handler_of(
            c,
            crate::chart::completion_of(crate::chart::durings_of(c)[i])->0,
        ) is Some,
{
}

/// No dead ends: in every resting state but power-down, a timer that is running
/// or a report that will come leads on.
pub proof fn law_every_state_leads_on(v: ChartView)
    requires
        v.wf(),
        v.current is Some,
        v.current->0 != JigglyState::PoweringDown,
    ensures
        (exists|t: Timer|
            #[trigger] crate::chart::left(v.timers, t) is Some && crate::chart::target_of(t) is Some)
            || (exists|i: int|
            0 <= i < crate::chart::durings_of(v.current->0).len()
                && crate::chart::completion_of(
                #[trigger] crate::chart::durings_of(v.current->0)[i],
            ) is Some),
{
    let c = v.current->0;
    let ds = crate::chart::durings_of(c);
    match c {
        JigglyState::WakingWithKeyboard => {
            assert(crate::chart::left(v.timers, Timer::KbdPhase) is Some);
        },
        JigglyState::WakingWithMouse => {
            assert(crate::chart::left(v.timers, Timer::MousePhase) is Some);
        },
        JigglyState::Settling => {
            assert(crate::chart::left(v.timers, Timer::SettlingDelay) is Some);
        },
        JigglyState::Quiet => {
            assert(crate::chart::left(v.timers, Timer::QuietEnd) is Some);
        },
        JigglyState::Booting | JigglyState::Spinning | JigglyState::Spiraling => {
            assert(crate::chart::completion_of(ds[0]) is Some);
        },
        _ => {
            assert(crate::chart::left(v.timers, Timer::Shutdown) is Some);
        },
    }
}

/// The moves of the chart, and what each asks for.
pub open spec fn moves(from: JigglyState, to: JigglyState, acts: Seq<Action>) -> bool {
    match (from, to) {
        (JigglyState::Booting, JigglyState::WakingWithKeyboard) => acts =~= seq![
            Action::KeyboardWake,
        ],
        (JigglyState::WakingWithKeyboard, JigglyState::WakingWithMouse) => acts =~= seq![
            Action::MouseWake,
        ],
        (JigglyState::WakingWithMouse, JigglyState::Settling) => acts =~= seq![],
        (JigglyState::Settling, JigglyState::Spinning) => acts =~= seq![],
        (JigglyState::Spinning, JigglyState::Breathing) => acts =~= seq![
            Action::CaptureActiveStart,
        ],
        (JigglyState::Breathing, JigglyState::Flashing) => acts =~= seq![Action::PaintWhite],
        (
            JigglyState::Flashing | JigglyState::Warning10 | JigglyState::Warning5,
            JigglyState::Breathing,
        ) => acts =~= seq![],
        (
            JigglyState::Breathing
            | JigglyState::Flashing
            | JigglyState::Warning10
            | JigglyState::Warning5,
            JigglyState::Warning10 | JigglyState::Warning5 | JigglyState::Spiraling,
        ) => from != to && acts =~= seq![],
        (JigglyState::Spiraling, JigglyState::Quiet) => acts =~= seq![],
        (JigglyState::Quiet, JigglyState::PoweringDown) => acts =~= seq![
            Action::ShutdownFlashes,
            Action::PowerOffNeo,
        ],
        _ => false,
    }
}

/// The device goes its way and no other: the keyboard wakes the host before the
/// mouse does, the closing spiral and the silence come before power-down, and
/// every change of state asks for exactly its own actions. A step that changes
/// no state asks for nothing but a jiggle.
pub proof fn law_moves_are_the_lifecycle(
    v: ChartView,
    elapsed: int,
    next: ChartView,
    acts: Seq<Action>,
)
    requires
        v.wf(),
        v.current is Some,
        elapsed >= 0,
        v.steps_to(elapsed, next, acts),
    ensures
        moves(v.current->0, next.current->0, acts) || (next.current == v.current && (acts
            =~= seq![] || acts =~= seq![Action::JigglePair])),
{
    let cause = lemma_step(v, elapsed, next, acts);
    let c = v.current->0;
    match cause {
        Cause::Fired(t0) => {
            if let Some(target) = crate::chart::target_of(t0) {
                assert(crate::chart::on_path(crate::chart::owner_of(t0), c));
                lemma_timed_move(c, t0);
            }
        },
        Cause::Handled(e) => {
            if crate::chart::handler_of(c, e) is Some {
                lemma_told_move(c, e);
            }
        },
        Cause::Idle => {},
    }
}

/// A timer that runs out in `c` makes one of the moves.
proof fn lemma_timed_move(c: JigglyState, t: Timer)
    requires
        crate::chart::default_of(c) is None,
        crate::chart::on_path(crate::chart::owner_of(t), c),
        crate::chart::target_of(t) is Some,
        t == Timer::Warn10 ==> c != JigglyState::Warning10,
        t == Timer::Warn5 ==> c != JigglyState::Warning5,
    ensures
        ({
            let target = crate::chart::target_of(t)->0;
            moves(
                c,
                landing(c, target),
                crate::chart::actions_of(crate::chart::entries(c, target)),
            )
        }),
{
    lemma_arrival(c, crate::chart::target_of(t)->0);
}

/// An event that is handled in `c` makes one of the moves.
proof fn lemma_told_move(c: JigglyState, e: Ev)
    requires
        crate::chart::default_of(c) is None,
        crate::chart::handler_of(c, e) is Some,
    ensures
        ({
            let target = crate::chart::handler_of(c, e)->0;
            moves(
                c,
                landing(c, target),
                crate::chart::actions_of(crate::chart::entries(c, target)),
            )
        }),
{
    lemma_arrival(c, crate::chart::handler_of(c, e)->0);
}

/// The actions of arriving, spelled out.
proof fn lemma_arrival(c: JigglyState, target: JigglyState)
    ensures
        crate::chart::actions_of(crate::chart::entries(c, target)) == ({
            let up = match crate::chart::parent_of(target) {
                Some(p) => if c == target || crate::chart::on_path(p, c) {
                    seq![]
                } else {
                    crate::chart::entry_actions(p)
                },
                None => seq![],
            };
            let own = if c == target || !crate::chart::on_path(target, c) {
                crate::chart::entry_actions(target)
            } else {
                seq![]
            };
            let inner = match crate::chart::default_of(target) {
                Some(d) => if c == target || !crate::chart::on_path(target, c) {
                    crate::chart::entry_actions(d)
                } else {
                    seq![]
                },
                None => seq![],
            };
            up + own + inner
        }),
{
    let e = crate::chart::entries(c, target);
    reveal_with_fuel(crate::chart::actions_of, 4);
    if e.len() == 1 {
        assert(e.drop_last() =~= seq![]);
    } else if e.len() == 2 {
        assert(e.drop_last() =~= seq![e[0]]);
        assert(e.drop_last().drop_last() =~= seq![]);
    } else if e.len() == 3 {
        assert(e.drop_last() =~= seq![e[0], e[1]]);
        assert(e.drop_last().drop_last() =~= seq![e[0]]);
        assert(e.drop_last().drop_last().drop_last() =~= seq![]);
    }
    let up = match crate::chart::parent_of(target) {
        Some(p) => if c == target || crate::chart::on_path(p, c) {
            seq![]
        } else {
            crate::chart::entry_actions(p)
        },
        None => seq![],
    };
    let own = if c == target || !crate::chart::on_path(target, c) {
        crate::chart::entry_actions(target)
    } else {
        seq![]
    };
    let inner = match crate::chart::default_of(target) {
        Some(d) => if c == target || !crate::chart::on_path(target, c) {
            crate::chart::entry_actions(d)
        } else {
            seq![]
        },
        None => seq![],
    };
    assert(crate::chart::actions_of(e) =~= up + own + inner);
}

/// The states that nothing but their own timer ends last exactly that long:
/// before the timer runs out the chart stays, whatever is reported, and the step
/// in which it runs out goes on.
pub proof fn law_timed_states_last_their_time(
    v: ChartView,
    elapsed: int,
    next: ChartView,
    acts: Seq<Action>,
    t: Timer,
)
    requires
        v.wf(),
        elapsed >= 0,
        v.steps_to(elapsed, next, acts),
        t == Timer::KbdPhase || t == Timer::MousePhase || t == Timer::SettlingDelay || t
            == Timer::QuietEnd,
        v.current == Some(crate::chart::owner_of(t)),
    ensures
        crate::chart::left(v.timers, t) is Some,
        crate::chart::left(v.timers, t)->0 > elapsed ==> next.current == v.current
            && crate::chart::left(next.timers, t) == Some(
            crate::chart::left(v.timers, t)->0 - elapsed,
        ),
        crate::chart::left(v.timers, t)->0 <= elapsed ==> next.current
            == crate::chart::target_of(t),
{
    assert(crate::chart::left(v.timers, t) is Some);
    let cause = lemma_step(v, elapsed, next, acts);
    if crate::chart::left(v.timers, t)->0 <= elapsed {
        assert(later(v, elapsed, t) == Some(0int));
    }
}

/// While the queue has room, no event is lost anew and a step adds at most one;
/// and unless a loss is still to be reported, a jiggle is told to the queue.
pub proof fn law_no_event_is_lost(v: ChartView, elapsed: int, next: ChartView, acts: Seq<Action>)
    requires
        v.wf(),
        elapsed >= 0,
        v.steps_to(elapsed, next, acts),
        v.queue.len() < crate::chart::QUEUE_CAPACITY,
    ensures
        next.overflow == v.overflow,
        next.queue.len() <= v.queue.len() + 1,
        !v.overflow && acts == seq![Action::JigglePair] ==> next.queue == v.queue.push(Ev::Jiggled),
{
    if v.current is Some {
        let c = v.current->0;
        let ts = crate::chart::tick(v.timers, elapsed);
        let w = ChartView { timers: ts, ..v };
        crate::chart::lemma_tick(v.timers, elapsed);
        if acts == seq![Action::JigglePair] {
            assert(acts.len() == 1 && acts[0] == Action::JigglePair);
            assert(acts.contains(Action::JigglePair));
        }
        if exists|i: int| crate::chart::fires(ts, i) {
            let i = choose|i: int|
                #[trigger] crate::chart::fires(ts, i) && (next, acts) == w.fire(i);
            crate::chart::lemma_take_out(ts, i);
            if let Some(target) = crate::chart::target_of(ts[i].timer) {
                crate::chart::lemma_go(
                    ChartView { timers: crate::chart::take_out(ts, i), ..w },
                    target,
                );
                lemma_entry_never_jiggles(crate::chart::entries(c, target));
            }
        } else if w.queue.len() > 0 {
            if let Some(target) = crate::chart::handler_of(c, w.queue[0]) {
                crate::chart::lemma_go(ChartView { queue: w.queue.drop_first(), ..w }, target);
                lemma_entry_never_jiggles(crate::chart::entries(c, target));
            }
        }
    } else {
        crate::chart::lemma_enter_all(v, seq![JigglyState::Booting]);
    }
}

/// What the active phase has set runs on through everything that happens in it: a
/// step that stays active takes its time off each of its timers, but for one that
/// fires in it.
pub proof fn law_active_timers_run_on(
    v: ChartView,
    elapsed: int,
    next: ChartView,
    acts: Seq<Action>,
    t: Timer,
)
    requires
        v.wf(),
        is_active(v),
        elapsed >= 0,
        v.steps_to(elapsed, next, acts),
        is_active(next),
        t is Jiggle || t is Warn10 || t is Warn5 || t is Shutdown,
        crate::chart::left(v.timers, t) is Some,
    ensures
        crate::chart::left(v.timers, t)->0 > elapsed ==> crate::chart::left(next.timers, t) == Some(
            crate::chart::left(v.timers, t)->0 - elapsed,
        ),
        crate::chart::left(v.timers, t)->0 <= elapsed ==> crate::chart::left(next.timers, t)
            == Some(0int) || crate::chart::left(next.timers, t) == (if t is Jiggle {
            Some(270_000_000int)
        } else {
            None
        }),
{
    let cause = lemma_step(v, elapsed, next, acts);
}

/// Timers come before events: while one is due no event is taken, and when none
/// is, the first in the queue is, goes where it leads, and leaves the queue.
pub proof fn law_events_wait_their_turn(
    v: ChartView,
    elapsed: int,
    next: ChartView,
    acts: Seq<Action>,
)
    requires
        v.wf(),
        v.current is Some,
        elapsed >= 0,
        v.steps_to(elapsed, next, acts),
    ensures
        ({
            let is_due = exists|t: Timer| later(v, elapsed, t) == Some(0int);
            let c = v.current->0;
            &&& is_due && acts != seq![Action::JigglePair] ==> next.queue == v.queue
            &&& !is_due && v.queue.len() == 0 ==> next.current == v.current && acts.len() == 0
            &&& !is_due && v.queue.len() > 0 ==> {
                let e = v.queue[0];
                &&& next.queue == v.queue.drop_first()
                &&& next.current == (if e is BootDone && c is Booting {
                    Some(JigglyState::WakingWithKeyboard)
                } else if e is SpinDone && c is Spinning {
                    Some(JigglyState::Breathing)
                } else if e is Jiggled && c is Breathing {
                    Some(JigglyState::Flashing)
                } else if e is WarnDone && (c is Warning10 || c is Warning5) {
                    Some(JigglyState::Breathing)
                } else if e is SpiralDone && c is Spiraling {
                    Some(JigglyState::Quiet)
                } else {
                    v.current
                })
            }
        }),
{
    let cause = lemma_step(v, elapsed, next, acts);
    if let Cause::Fired(t0) = cause {
        assert(later(v, elapsed, t0) == Some(0int));
    }
}

/// A timer that alone is due takes the chart where it should: from the keyboard to
/// the mouse, to settling, to the spinner; to each warning and out of the flash;
/// to the closing spiral; and from the silence to power-down.
pub proof fn law_timers_take_the_chart_on(
    v: ChartView,
    elapsed: int,
    next: ChartView,
    acts: Seq<Action>,
    t: Timer,
)
    requires
        v.wf(),
        v.current is Some,
        elapsed >= 0,
        v.steps_to(elapsed, next, acts),
        later(v, elapsed, t) == Some(0int),
        forall|u: Timer| u != t ==> later(v, elapsed, u) != Some(0int),
    ensures
        next.current == match t {
            Timer::KbdPhase => Some(JigglyState::WakingWithMouse),
            Timer::MousePhase => Some(JigglyState::Settling),
            Timer::SettlingDelay => Some(JigglyState::Spinning),
            Timer::Jiggle => v.current,
            Timer::Warn10 => Some(JigglyState::Warning10),
            Timer::Warn5 => Some(JigglyState::Warning5),
            Timer::Shutdown => Some(JigglyState::Spiraling),
            Timer::FlashOff => Some(JigglyState::Breathing),
            Timer::QuietEnd => Some(JigglyState::PoweringDown),
        },
        t is Jiggle <==> acts == seq![Action::JigglePair],
{
    let cause = lemma_step(v, elapsed, next, acts);
    law_moves_are_the_lifecycle(v, elapsed, next, acts);
    if acts == seq![Action::JigglePair] {
        assert(acts[0] == Action::JigglePair);
        assert(acts.contains(Action::JigglePair));
        law_jiggle_waits_its_period(v, elapsed, next, acts);
    }
}

/// A flash that is over ends before anything else that is due.
pub proof fn law_flash_ends_first(v: ChartView, elapsed: int, next: ChartView, acts: Seq<Action>)
    requires
        v.wf(),
        v.current == Some(JigglyState::Flashing),
        elapsed >= 0,
        v.steps_to(elapsed, next, acts),
        later(v, elapsed, Timer::FlashOff) == Some(0int),
    ensures
        next.current == Some(JigglyState::Breathing),
        acts.len() == 0,
        next.queue == v.queue,
{
    let ts = crate::chart::tick(v.timers, elapsed);
    let w = ChartView { timers: ts, ..v };
    crate::chart::lemma_tick(v.timers, elapsed);
    assert(crate::chart::left(ts, Timer::FlashOff) == Some(0int));
    let j = crate::chart::lemma_left_is(ts, Timer::FlashOff);
    lemma_some_fires(ts, j);
    let i = choose|i: int| #[trigger] crate::chart::fires(ts, i) && (next, acts) == w.fire(i);
    crate::chart::law_deepest_timer_goes_first(ts, i, j);
    crate::chart::lemma_left(ts, i);
    let t0 = ts[i].timer;
    assert(crate::chart::left(v.timers, t0) is Some);
    assert(crate::chart::on_path(crate::chart::owner_of(t0), JigglyState::Flashing));
    assert(t0 == Timer::FlashOff);
    crate::chart::lemma_take_out(ts, i);
    crate::chart::lemma_go(
        ChartView { timers: crate::chart::take_out(ts, i), ..w },
        JigglyState::Breathing,
    );
    lemma_arrival(JigglyState::Flashing, JigglyState::Breathing);
}

/// The phases of the device's life, said outright.
pub proof fn law_phases_are_these(s: JigglyState)
    ensures
        phase_of(s) == 0 <==> s is Booting,
        phase_of(s) == 1 <==> crate::chart::on_path(JigglyState::WakingHost, s),
        phase_of(s) == 2 <==> s is Settling,
        phase_of(s) == 3 <==> s is Spinning,
        phase_of(s) == 4 <==> crate::chart::on_path(JigglyState::Active, s),
        phase_of(s) == 5 <==> crate::chart::on_path(JigglyState::Ending, s),
        phase_of(s) == 6 <==> s is PoweringDown,
{
}

} // verus!
