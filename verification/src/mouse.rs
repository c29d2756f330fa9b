//! What the device does with the cursor: the jiggle, and animations that are
//! drawn in whole pixels without losing the fractions.
use vstd::prelude::*;

use crate::chart::{During, Ev};
use crate::config::{
    ANIM_FRAME, FINAL_SPIRAL_FRAMES, FINAL_SPIRAL_RADIUS_START, FINAL_SPIRAL_TURNS,
    MOUSE_PHASE_DURATION, MOUSE_WAKE_DEADLINE, PIXEL_DWELL, RUN_CIRCLES, RUN_FRAMES_PER_CIRCLE,
    RUN_RADIUS, SHUTDOWN_ANIM_BUDGET, SPINNER_FADE_DURATION, SPIRAL_RADIUS_END, UNIT,
    WAKE_AMPLITUDE, WAKE_FRAMES_PER_HALF, WAKE_JITTER, WAKE_OSCILLATIONS, WARN10_FRAMES,
    WARN10_RADIUS_START, WARN10_TURNS, WARN5_FRAMES, WARN5_RADIUS_START, WARN5_TURNS,
};

verus! {

/// The largest move of one report, in pixels.
pub const MAX_DELTA: i64 = 127;

/// A position, or a distance, in parts of a pixel: `UNIT` of them make one.
#[derive(Debug, Clone, Copy, PartialEq, Eq, Structural)]
pub struct Point {
    pub x: i64,
    pub y: i64,
}

/// A move in whole pixels.
#[derive(Debug, Clone, Copy, PartialEq, Eq, Structural)]
pub struct Delta {
    pub x: i8,
    pub y: i8,
}

/// A mouse report as the host gets it.
#[derive(Debug, Clone, Copy, PartialEq, Eq, Structural)]
pub struct MouseReport {
    pub buttons: u8,
    pub x: i8,
    pub y: i8,
    pub wheel: i8,
    pub pan: i8,
}

/// The report of a move: no button, no wheel.
pub fn mouse_report(d: Delta) -> (r: MouseReport)
    ensures
        r == (MouseReport { buttons: 0, x: d.x, y: d.y, wheel: 0, pan: 0 }),
{
    MouseReport { buttons: 0, x: d.x, y: d.y, wheel: 0, pan: 0 }
}

/// One thing for the driver to do with the cursor.
#[derive(Debug, Clone, Copy, PartialEq, Eq, Structural)]
pub enum MouseStep {
    Move(Delta),
    /// Wait, in microseconds.
    Wait(u64),
    /// There is nothing more to do.
    Done,
}

// ---------------------------------------------------------------------------
// The jiggle.
// ---------------------------------------------------------------------------

/// The axis that a random byte picks, and the pixel along it.
pub open spec fn nudge(die: u8) -> Delta {
    if die % 2 == 0 {
        Delta { x: 1, y: 0 }
    } else {
        Delta { x: 0, y: 1 }
    }
}

/// The steps of a jiggle.
pub open spec fn jiggle_steps(die: u8) -> Seq<MouseStep> {
    seq![
        MouseStep::Move(nudge(die)),
        MouseStep::Wait(PIXEL_DWELL),
        MouseStep::Move(Delta { x: (-nudge(die).x) as i8, y: (-nudge(die).y) as i8 }),
    ]
}

/// One pixel along a random axis, a rest, and one pixel back.
pub fn jiggle_pair(die: u8) -> (r: [MouseStep; 3])
    ensures
        r@ == jiggle_steps(die),
{
    assert(die & 1 == die % 2) by (bit_vector);
    let d = if die & 1 == 0 {
        Delta { x: 1, y: 0 }
    } else {
        Delta { x: 0, y: 1 }
    };
    [
        MouseStep::Move(d),
        MouseStep::Wait(PIXEL_DWELL),
        MouseStep::Move(Delta { x: -d.x, y: -d.y }),
    ]
}

/// A jiggle leaves the cursor where it was: it moves by one pixel, rests for
/// twenty-five milliseconds, and moves back by as much.
pub proof fn law_jiggle_comes_back(die: u8)
    ensures
        ({
            let s = jiggle_steps(die);
            &&& s.len() == 3
            &&& s[1] == MouseStep::Wait(25_000)
            &&& s[0] matches MouseStep::Move(there) && s[2] matches MouseStep::Move(back) && {
                &&& there.x + back.x == 0
                &&& there.y + back.y == 0
                &&& there.x + there.y == 1
                &&& there == nudge(die)
            }
        }),
{
}

// ---------------------------------------------------------------------------
// Drawing in whole pixels.
// ---------------------------------------------------------------------------

/// `want` parts of a pixel, held to what one report can carry.
pub open spec fn clamped(want: int) -> int {
    if want > MAX_DELTA * UNIT {
        MAX_DELTA * UNIT
    } else if want < -(MAX_DELTA * UNIT) {
        -(MAX_DELTA * UNIT)
    } else {
        want
    }
}

/// The whole number of pixels nearest to `v`, halves away from zero.
pub open spec fn rounded(v: int) -> int {
    if v >= 0 {
        (2 * v + UNIT) / (2 * UNIT)
    } else {
        -((-2 * v + UNIT) / (2 * UNIT))
    }
}

/// The move of one axis that is asked for `want`.
pub open spec fn axis_delta(want: int) -> int {
    rounded(clamped(want))
}

/// What is left of `want` after that move.
pub open spec fn axis_rest(want: int) -> int {
    want - axis_delta(want) * UNIT
}

fn axis_step(want: i64) -> (r: (i8, i64))
    requires
        -0x4000_0000_0000_0000 <= want <= 0x4000_0000_0000_0000,
    ensures
        r.0 == axis_delta(want as int),
        r.1 == axis_rest(want as int),
{
    let limit: i64 = 136_365_211_648;
    let held: i64 = if want > limit {
        limit
    } else if want < -limit {
        -limit
    } else {
        want
    };
    let d: i64 = if held >= 0 {
        ((2 * held + UNIT) as u64 / 2_147_483_648) as i64
    } else {
        -(((-2 * held + UNIT) as u64 / 2_147_483_648) as i64)
    };
    (d as i8, want - d * UNIT)
}

/// Farther than any cursor goes, and far enough from the integers' limits to
/// take differences of.
pub const REACH: i64 = 0x0400_0000_0000_0000;

/// `p` is in reach.
pub open spec fn in_reach(p: Point) -> bool {
    -REACH <= p.x <= REACH && -REACH <= p.y <= REACH
}

/// `prev` is in reach, and so, but for a pixel, is the cursor: it stands where
/// nothing more than `acc` is owed to `prev`.
pub open spec fn cursor_in_reach(prev: Point, acc: Point) -> bool {
    &&& in_reach(prev)
    &&& -(REACH + UNIT) <= prev.x - acc.x <= REACH + UNIT
    &&& -(REACH + UNIT) <= prev.y - acc.y <= REACH + UNIT
}

/// The move from `prev` towards `next` when `acc` is still owed, in whole
/// pixels, and what is owed after it.
pub fn step_delta(prev: Point, next: Point, acc: Point) -> (r: (Delta, Point))
    requires
        cursor_in_reach(prev, acc),
        in_reach(next),
    ensures
        r.0.x == axis_delta(next.x - prev.x + acc.x),
        r.0.y == axis_delta(next.y - prev.y + acc.y),
        r.1.x == axis_rest(next.x - prev.x + acc.x),
        r.1.y == axis_rest(next.y - prev.y + acc.y),
        cursor_in_reach(next, r.1),
{
    let (dx, rx) = axis_step(next.x - prev.x + acc.x);
    let (dy, ry) = axis_step(next.y - prev.y + acc.y);
    (Delta { x: dx, y: dy }, Point { x: rx, y: ry })
}

/// One axis of a drawing along `targets`, from zero: what is owed at its end.
pub open spec fn axis_owed(targets: Seq<int>) -> int
    decreases targets.len(),
{
    if targets.len() == 0 {
        0
    } else {
        axis_rest(axis_want(targets))
    }
}

/// What the last move of a drawing is asked for.
pub open spec fn axis_want(targets: Seq<int>) -> int
    decreases targets.len(), 0int,
{
    if targets.len() == 0 {
        0
    } else {
        let before = targets.drop_last();
        let prev = if before.len() == 0 {
            0
        } else {
            before.last()
        };
        targets.last() - prev + axis_owed(before)
    }
}

/// The pixels moved in a whole drawing.
pub open spec fn axis_moved(targets: Seq<int>) -> int
    decreases targets.len(),
{
    if targets.len() == 0 {
        0
    } else {
        axis_moved(targets.drop_last()) + axis_delta(axis_want(targets))
    }
}

/// Nothing is lost to whole pixels: after every frame of every drawing, the
/// cursor's position and what is owed add up to the target.
pub proof fn law_no_motion_is_lost(targets: Seq<int>)
    requires
        targets.len() > 0,
    ensures
        axis_moved(targets) * UNIT + axis_owed(targets) == targets.last(),
    decreases targets.len(),
{
    let before = targets.drop_last();
    if before.len() > 0 {
        law_no_motion_is_lost(before);
    } else {
        assert(axis_owed(before) == 0);
        assert(axis_moved(before) == 0);
    }
    let d = axis_delta(axis_want(targets));
    assert((axis_moved(before) + d) * UNIT == axis_moved(before) * UNIT + d * UNIT);
}

/// No frame of a drawing jumps by more than 126 pixels.
pub open spec fn smooth(targets: Seq<int>) -> bool {
    forall|i: int|
        0 <= i < targets.len() ==> {
            let prev = if i == 0 {
                0
            } else {
                targets[i - 1]
            };
            -126 * UNIT <= #[trigger] targets[i] - prev <= 126 * UNIT
        }
}

/// A smooth drawing stays within half a pixel of its shape in every frame.
pub proof fn law_drawing_keeps_its_shape(targets: Seq<int>)
    requires
        smooth(targets),
    ensures
        -UNIT <= 2 * axis_owed(targets) <= UNIT,
    decreases targets.len(),
{
    if targets.len() > 0 {
        let before = targets.drop_last();
        assert forall|i: int| 0 <= i < before.len() implies ({
            let prev = if i == 0 {
                0
            } else {
                before[i - 1]
            };
            -126 * UNIT <= #[trigger] before[i] - prev <= 126 * UNIT
        }) by {
            assert(before[i] == targets[i]);
        }
        law_drawing_keeps_its_shape(before);
        let n = targets.len() - 1;
        let prev = if n == 0 {
            0
        } else {
            targets[n - 1]
        };
        assert(-126 * UNIT <= targets[n] - prev <= 126 * UNIT);
    }
}

/// An animation being drawn.
#[derive(Debug, Clone, Copy, PartialEq, Eq, Structural)]
pub struct Stroke {
    /// The next frame.
    pub frame: u32,
    /// The frame before was sent, and is still to be rested on.
    pub resting: bool,
    /// The target of the frame before.
    pub prev: Point,
    /// What is still owed to it.
    pub acc: Point,
}

impl Stroke {
    /// The cursor is in reach.
    pub open spec fn wf(self) -> bool {
        cursor_in_reach(self.prev, self.acc)
    }

    /// The axes of the targets drawn so far bring the stroke to where it is.
    pub open spec fn has_drawn(self, xs: Seq<int>, ys: Seq<int>) -> bool {
        &&& xs.len() == self.frame == ys.len()
        &&& self.prev.x == if xs.len() == 0 {
            0
        } else {
            xs.last()
        }
        &&& self.prev.y == if ys.len() == 0 {
            0
        } else {
            ys.last()
        }
        &&& self.acc.x == axis_owed(xs)
        &&& self.acc.y == axis_owed(ys)
    }

    /// Drawing the next frame to `(x, y)` moves by `d` and leads to `next`.
    pub open spec fn draws(self, x: int, y: int, d: Delta, next: Stroke) -> bool {
        &&& d.x == axis_delta(x - self.prev.x + self.acc.x)
        &&& d.y == axis_delta(y - self.prev.y + self.acc.y)
        &&& next.frame == self.frame + 1
        &&& next.resting
        &&& next.prev.x == x
        &&& next.prev.y == y
        &&& next.acc.x == axis_rest(x - self.prev.x + self.acc.x)
        &&& next.acc.y == axis_rest(y - self.prev.y + self.acc.y)
    }

    /// A drawing from where the cursor is.
    pub fn new() -> (r: Stroke)
        ensures
            r == (Stroke {
                frame: 0,
                resting: false,
                prev: Point { x: 0, y: 0 },
                acc: Point { x: 0, y: 0 },
            }),
            r.wf(),
            r.has_drawn(seq![], seq![]),
    {
        Stroke {
            frame: 0,
            resting: false,
            prev: Point { x: 0, y: 0 },
            acc: Point { x: 0, y: 0 },
        }
    }

    /// The move that the next frame's `target` calls for.
    pub fn draw(&mut self, target: Point) -> (d: Delta)
        requires
            old(self).wf(),
            in_reach(target),
            old(self).frame < u32::MAX,
        ensures
            final(self).wf(),
            old(self).draws(target.x as int, target.y as int, d, *final(self)),
    {
        let (d, rest) = step_delta(self.prev, target, self.acc);
        self.frame = self.frame + 1;
        self.resting = true;
        self.prev = target;
        self.acc = rest;
        d
    }
}

/// A stroke is what its targets make of it: each frame drawn adds its target to
/// them.
pub proof fn law_stroke_follows_its_targets(
    s: Stroke,
    xs: Seq<int>,
    ys: Seq<int>,
    x: int,
    y: int,
    d: Delta,
    next: Stroke,
)
    requires
        s.has_drawn(xs, ys),
        s.draws(x, y, d, next),
    ensures
        next.has_drawn(xs.push(x), ys.push(y)),
        axis_moved(xs.push(x)) == axis_moved(xs) + d.x,
        axis_moved(ys.push(y)) == axis_moved(ys) + d.y,
{
    assert(xs.push(x).drop_last() =~= xs);
    assert(ys.push(y).drop_last() =~= ys);
}

// ---------------------------------------------------------------------------
// The curves.
// ---------------------------------------------------------------------------

/// What a frame's curve is evaluated from, the first three in parts of one: sine
/// and cosine of the frame's angle, the eased progress, and a random byte.
#[derive(Debug, Clone, Copy, PartialEq, Eq, Structural)]
pub struct Wave {
    pub sin: i64,
    pub cos: i64,
    pub ease: i64,
    pub die: u8,
}

impl Wave {
    /// Sine and cosine lie between minus one and one, the progress between zero
    /// and one.
    pub open spec fn wf(self) -> bool {
        &&& -UNIT <= self.sin <= UNIT
        &&& -UNIT <= self.cos <= UNIT
        &&& 0 <= self.ease <= UNIT
    }
}

/// The curve of an animation, lengths in pixels.
#[derive(Debug, Clone, Copy, PartialEq, Eq, Structural)]
pub enum Shape {
    /// Side to side, with a little vertical jitter.
    Shake { amplitude: u16, period_frames: u32, jitter: u16 },
    /// Circles through the starting point.
    Circle { radius: u16, period_frames: u32 },
    /// Inwards, radius and angle easing together.
    Spiral { radius_start: u16, radius_end: u16, turns: u32 },
}

/// The product of a length and a share, rounded down.
pub open spec fn scaled(a: int, b: int) -> int {
    a * b / UNIT as int
}

/// The vertical wobble that a random byte stands for: evenly from `-jitter` to
/// `jitter` pixels.
pub open spec fn wobble(jitter: int, die: int) -> int {
    jitter * UNIT * (2 * die - 255) / 255
}

/// The radius of a spiral at `ease` of the way from its start to its end.
pub open spec fn spiral_radius(start: int, end: int, ease: int) -> int {
    start * UNIT + (end - start) * ease
}

/// The point of a curve, counted from where the cursor was.
pub open spec fn curve_x(s: Shape, w: Wave) -> int {
    match s {
        Shape::Shake { amplitude, .. } => amplitude * w.sin,
        Shape::Circle { radius, .. } => radius * w.sin,
        Shape::Spiral { radius_start, radius_end, .. } => scaled(
            spiral_radius(radius_start as int, radius_end as int, w.ease as int),
            w.cos as int,
        ) - radius_start * UNIT,
    }
}

pub open spec fn curve_y(s: Shape, w: Wave) -> int {
    match s {
        Shape::Shake { jitter, .. } => wobble(jitter as int, w.die as int),
        Shape::Circle { radius, .. } => radius * (UNIT - w.cos),
        Shape::Spiral { radius_start, radius_end, .. } => scaled(
            spiral_radius(radius_start as int, radius_end as int, w.ease as int),
            w.sin as int,
        ),
    }
}

/// A length between zero and `bound` pixels, times a share.
proof fn lemma_scaled(a: int, b: int, bound: int)
    requires
        0 <= a <= bound * UNIT,
        -UNIT <= b <= UNIT,
    ensures
        -bound * UNIT <= scaled(a, b) <= bound * UNIT,
        -(bound * UNIT * UNIT) <= a * b <= bound * UNIT * UNIT,
        b == 0 ==> scaled(a, b) == 0,
        b == UNIT ==> scaled(a, b) == a,
{
    let m = bound * UNIT;
    assert(-m * UNIT <= a * b <= m * UNIT) by (nonlinear_arith)
        requires
            0 <= a <= m,
            -UNIT <= b <= UNIT,
    ;
    if b == UNIT {
        assert(a * b == a * UNIT);
    }
    if b == 0 {
        assert(a * b == 0) by (nonlinear_arith)
            requires
                b == 0,
        ;
    }
}

/// A spiral's radius lies between its ends.
proof fn lemma_radius(start: int, end: int, ease: int)
    requires
        start >= 0,
        end >= 0,
        0 <= ease <= UNIT,
    ensures
        start <= end ==> start * UNIT <= spiral_radius(start, end, ease) <= end * UNIT,
        end <= start ==> end * UNIT <= spiral_radius(start, end, ease) <= start * UNIT,
        0 <= spiral_radius(start, end, ease),
{
    let d = end - start;
    if d >= 0 {
        assert(0 <= d * ease <= d * UNIT) by (nonlinear_arith)
            requires
                d >= 0,
                0 <= ease <= UNIT,
        ;
    } else {
        assert(d * UNIT <= d * ease <= 0) by (nonlinear_arith)
            requires
                d <= 0,
                0 <= ease <= UNIT,
        ;
    }
}

/// A share of a length.
proof fn lemma_share(r: int, b: int)
    requires
        0 <= r,
        -UNIT <= b <= UNIT,
    ensures
        -(r * UNIT) <= r * b <= r * UNIT,
{
    assert(-(r * UNIT) <= r * b <= r * UNIT) by (nonlinear_arith)
        requires
            0 <= r,
            -UNIT <= b <= UNIT,
    ;
}

fn scale(a: i64, b: i64) -> (r: i64)
    requires
        0 <= a <= 0x1_0000 * UNIT,
        -UNIT <= b <= UNIT,
    ensures
        r == scaled(a as int, b as int),
        -0x1_0000 * UNIT <= r <= 0x1_0000 * UNIT,
{
    proof {
        lemma_scaled(a as int, b as int, 0x1_0000);
    }
    let p: i128 = a as i128 * b as i128;
    if p >= 0 {
        (p as u128 / 1_073_741_824) as i64
    } else {
        -((((-p) as u128 + 1_073_741_823) / 1_073_741_824) as i64)
    }
}

impl Shape {
    /// The point of this curve that `w` stands for.
    pub fn target(self, w: Wave) -> (r: Point)
        requires
            w.wf(),
        ensures
            r.x == curve_x(self, w),
            r.y == curve_y(self, w),
            in_reach(r),
    {
        match self {
            Shape::Shake { amplitude, jitter, .. } => {
                proof {
                    lemma_share(amplitude as int, w.sin as int);
                }
                let x: i64 = amplitude as i64 * w.sin;
                let odds: i64 = 2 * w.die as i64 - 255;
                let span: i64 = jitter as i64 * UNIT;
                assert(-(span * 255) <= span * odds <= span * 255) by (nonlinear_arith)
                    requires
                        0 <= span,
                        -255 <= odds <= 255,
                ;
                assert(if odds >= 0 {
                    span * odds >= 0
                } else {
                    span * odds <= 0
                }) by (nonlinear_arith)
                    requires
                        0 <= span,
                ;
                let y: i64 = if odds >= 0 {
                    ((span * odds) as u64 / 255) as i64
                } else {
                    -((((-(span * odds)) as u64 + 254) / 255) as i64)
                };
                Point { x, y }
            },
            Shape::Circle { radius, .. } => {
                proof {
                    lemma_share(radius as int, w.sin as int);
                    lemma_share(radius as int, w.cos as int);
                    assert(radius * (UNIT - w.cos) == radius * UNIT - radius * w.cos)
                        by (nonlinear_arith);
                }
                Point { x: radius as i64 * w.sin, y: radius as i64 * (UNIT - w.cos) }
            },
            Shape::Spiral { radius_start, radius_end, .. } => {
                proof {
                    lemma_radius(radius_start as int, radius_end as int, w.ease as int);
                    lemma_share(radius_start as int, w.ease as int);
                    lemma_share(radius_end as int, w.ease as int);
                    assert((radius_end - radius_start) * w.ease == radius_end * w.ease
                        - radius_start * w.ease) by (nonlinear_arith);
                }
                let start: i64 = radius_start as i64 * UNIT;
                let radius: i64 = start + (radius_end as i64 - radius_start as i64) * w.ease;
                Point { x: scale(radius, w.cos) - start, y: scale(radius, w.sin) }
            },
        }
    }
}

/// Every curve starts where the cursor is: at angle zero with no progress, the
/// shake alone is off, by its wobble.
pub proof fn law_curves_start_at_the_cursor(s: Shape, w: Wave)
    requires
        w.sin == 0,
        w.cos == UNIT,
        w.ease == 0,
    ensures
        curve_x(s, w) == 0,
        !(s is Shake) ==> curve_y(s, w) == 0,
{
    match s {
        Shape::Spiral { radius_start, radius_end, .. } => {
            lemma_radius(radius_start as int, radius_end as int, 0);
            assert((radius_end - radius_start) * 0 == 0);
            lemma_scaled(radius_start * UNIT, UNIT as int, radius_start as int);
            lemma_scaled(radius_start * UNIT, 0, radius_start as int);
        },
        _ => {},
    }
}

/// No curve goes farther than its size: a shake stays within its amplitude and
/// its jitter, a circle within its diameter, and a spiral within the circle it
/// starts on.
pub proof fn law_curves_stay_in_bounds(s: Shape, w: Wave)
    requires
        w.wf(),
    ensures
        match s {
            Shape::Shake { amplitude, jitter, .. } => {
                &&& -(amplitude * UNIT) <= curve_x(s, w) <= amplitude * UNIT
                &&& -(jitter * UNIT) <= curve_y(s, w) <= jitter * UNIT
            },
            Shape::Circle { radius, .. } => {
                &&& -(radius * UNIT) <= curve_x(s, w) <= radius * UNIT
                &&& 0 <= curve_y(s, w) <= 2 * (radius * UNIT)
            },
            Shape::Spiral { radius_start, radius_end, .. } => radius_end <= radius_start ==> {
                &&& -2 * (radius_start * UNIT) <= curve_x(s, w) <= 0
                &&& -(radius_start * UNIT) <= curve_y(s, w) <= radius_start * UNIT
            },
        },
{
    match s {
        Shape::Shake { amplitude, jitter, .. } => {
            lemma_share(amplitude as int, w.sin as int);
            let span = jitter * UNIT;
            let odds = 2 * w.die - 255;
            assert(-(span * 255) <= span * odds <= span * 255) by (nonlinear_arith)
                requires
                    0 <= span,
                    -255 <= odds <= 255,
            ;
        },
        Shape::Circle { radius, .. } => {
            lemma_share(radius as int, w.sin as int);
            lemma_share(radius as int, w.cos as int);
            assert(radius * (UNIT - w.cos) == radius * UNIT - radius * w.cos) by (nonlinear_arith);
        },
        Shape::Spiral { radius_start, radius_end, .. } => {
            lemma_radius(radius_start as int, radius_end as int, w.ease as int);
            if radius_end <= radius_start {
                let r = spiral_radius(radius_start as int, radius_end as int, w.ease as int);
                lemma_scaled(r, w.cos as int, radius_start as int);
                lemma_scaled(r, w.sin as int, radius_start as int);
            }
        },
    }
}

/// A spiral only tightens: with more progress the radius is no larger, from its
/// start down to its end.
pub proof fn law_spiral_tightens(start: int, end: int, sooner: int, later: int)
    requires
        0 <= end <= start,
        0 <= sooner <= later <= UNIT,
    ensures
        spiral_radius(start, end, later) <= spiral_radius(start, end, sooner),
        spiral_radius(start, end, 0) == start * UNIT,
        spiral_radius(start, end, UNIT as int) == end * UNIT,
{
    let d = end - start;
    assert(d * later <= d * sooner) by (nonlinear_arith)
        requires
            d <= 0,
            sooner <= later,
    ;
}

// ---------------------------------------------------------------------------
// The animations.
// ---------------------------------------------------------------------------

/// The animations that the device draws.
#[derive(Debug, Clone, Copy, PartialEq, Eq, Structural)]
pub enum Animation {
    WakeShake,
    Spinner,
    FinalSpiral,
    Warning5,
    Warning10,
}

pub open spec fn frames_of(a: Animation) -> int {
    match a {
        Animation::WakeShake => WAKE_OSCILLATIONS * WAKE_FRAMES_PER_HALF * 2,
        Animation::Spinner => RUN_CIRCLES * RUN_FRAMES_PER_CIRCLE,
        Animation::FinalSpiral => FINAL_SPIRAL_FRAMES as int,
        Animation::Warning5 => WARN5_FRAMES as int,
        Animation::Warning10 => WARN10_FRAMES as int,
    }
}

pub open spec fn shape_of(a: Animation) -> Shape {
    match a {
        Animation::WakeShake => Shape::Shake {
            amplitude: WAKE_AMPLITUDE,
            period_frames: (WAKE_FRAMES_PER_HALF * 2) as u32,
            jitter: WAKE_JITTER,
        },
        Animation::Spinner => Shape::Circle {
            radius: RUN_RADIUS,
            period_frames: RUN_FRAMES_PER_CIRCLE,
        },
        Animation::FinalSpiral => Shape::Spiral {
            radius_start: FINAL_SPIRAL_RADIUS_START,
            radius_end: SPIRAL_RADIUS_END,
            turns: FINAL_SPIRAL_TURNS,
        },
        Animation::Warning5 => Shape::Spiral {
            radius_start: WARN5_RADIUS_START,
            radius_end: SPIRAL_RADIUS_END,
            turns: WARN5_TURNS,
        },
        Animation::Warning10 => Shape::Spiral {
            radius_start: WARN10_RADIUS_START,
            radius_end: SPIRAL_RADIUS_END,
            turns: WARN10_TURNS,
        },
    }
}

/// Where on its curve a frame lies.
#[derive(Debug, Clone, Copy, PartialEq, Eq, Structural)]
pub enum Phase {
    /// At an angle of `part / whole` turns.
    Turned { part: u32, whole: u32 },
    /// At a progress of `part / whole`, eased, and an angle of that progress
    /// times `turns`.
    Eased { part: u32, whole: u32, turns: u32 },
}

/// Where frame `frame` of a drawing of `s` in `frames` frames lies.
pub open spec fn phase_in(s: Shape, frames: u32, frame: u32) -> Phase {
    match s {
        Shape::Shake { period_frames, .. } | Shape::Circle { period_frames, .. } => Phase::Turned {
            part: frame,
            whole: period_frames,
        },
        Shape::Spiral { turns, .. } => Phase::Eased { part: frame, whole: frames, turns },
    }
}

pub open spec fn phase_of(a: Animation, frame: u32) -> Phase {
    phase_in(shape_of(a), frames_of(a) as u32, frame)
}

/// The shake swings whole oscillations and the spinner runs whole circles: the
/// frame after the last would be back at the start.
pub proof fn law_turns_are_whole(a: Animation)
    ensures
        phase_of(a, frames_of(a) as u32) matches Phase::Turned { part, whole } ==> part == (if a
            == Animation::WakeShake {
            WAKE_OSCILLATIONS
        } else {
            RUN_CIRCLES
        }) * whole,
        phase_of(a, frames_of(a) as u32) matches Phase::Eased { part, whole, .. } ==> part
            == whole,
{
}

/// What the chart hears when an animation is done; the shake is over when its
/// action returns.
pub open spec fn report_of(a: Animation) -> Option<Ev> {
    match a {
        Animation::WakeShake => None,
        Animation::Spinner => Some(Ev::SpinDone),
        Animation::FinalSpiral => Some(Ev::SpiralDone),
        Animation::Warning5 | Animation::Warning10 => Some(Ev::WarnDone),
    }
}

/// The animation that an activity of the chart draws.
pub open spec fn animation_of(d: During) -> Option<Animation> {
    match d {
        During::AnimateSpinner => Some(Animation::Spinner),
        During::AnimateWarning10 => Some(Animation::Warning10),
        During::AnimateWarning5 => Some(Animation::Warning5),
        During::AnimateFinalSpiral => Some(Animation::FinalSpiral),
        _ => None,
    }
}

/// An activity that draws reports what the chart waits for from it; the others
/// paint the LED.
pub proof fn law_drawing_reports_to_the_chart(d: During)
    ensures
        animation_of(d) is Some <==> !crate::chart::uses_led(d),
        animation_of(d) matches Some(a) ==> report_of(a) is Some && report_of(a)
            == crate::chart::completion_of(d),
{
}

/// How many steps of a drawing in `frames` frames are left: a frame is sent, and
/// then rested on.
pub open spec fn steps_left(frames: int, s: Stroke) -> int {
    (if s.frame < frames {
        2 * (frames - s.frame)
    } else {
        0
    }) + if s.resting {
        1int
    } else {
        0int
    }
}

/// `r` is the next step of drawing `shape` in `frames` frames, and `next` where
/// it leaves the stroke.
pub open spec fn animates(
    shape: Shape,
    frames: int,
    s: Stroke,
    w: Wave,
    r: MouseStep,
    next: Stroke,
) -> bool {
    if s.resting {
        r == MouseStep::Wait(ANIM_FRAME) && next == (Stroke { resting: false, ..s })
    } else if s.frame < frames {
        r matches MouseStep::Move(d) && s.draws(curve_x(shape, w), curve_y(shape, w), d, next)
    } else {
        r == MouseStep::Done && next == s
    }
}

impl Shape {
    /// Where frame `frame` of a drawing of this curve in `frames` frames lies.
    pub fn phase(self, frames: u32, frame: u32) -> (r: Phase)
        ensures
            r == phase_in(self, frames, frame),
    {
        match self {
            Shape::Shake { period_frames, .. } | Shape::Circle { period_frames, .. } => {
                Phase::Turned { part: frame, whole: period_frames }
            },
            Shape::Spiral { turns, .. } => Phase::Eased { part: frame, whole: frames, turns },
        }
    }

    /// The next step of drawing this curve in `frames` frames: frame by frame a
    /// move and a rest. `w` is what the curve is evaluated from at the phase of
    /// frame `stroke.frame`.
    pub fn step(self, frames: u32, stroke: &mut Stroke, w: Wave) -> (r: MouseStep)
        requires
            old(stroke).wf(),
            w.wf(),
        ensures
            final(stroke).wf(),
            animates(self, frames as int, *old(stroke), w, r, *final(stroke)),
    {
        if stroke.resting {
            stroke.resting = false;
            MouseStep::Wait(ANIM_FRAME)
        } else if stroke.frame < frames {
            let p = self.target(w);
            MouseStep::Move(stroke.draw(p))
        } else {
            MouseStep::Done
        }
    }
}

impl Animation {
    /// The animation that an activity draws, if it draws one.
    pub fn of(d: During) -> (r: Option<Animation>)
        ensures
            r == animation_of(d),
    {
        match d {
            During::AnimateSpinner => Some(Animation::Spinner),
            During::AnimateWarning10 => Some(Animation::Warning10),
            During::AnimateWarning5 => Some(Animation::Warning5),
            During::AnimateFinalSpiral => Some(Animation::FinalSpiral),
            _ => None,
        }
    }

    /// How many frames this animation has.
    pub fn frames(self) -> (r: u32)
        ensures
            r == frames_of(self),
            0 < r < u32::MAX,
    {
        match self {
            Animation::WakeShake => WAKE_OSCILLATIONS * WAKE_FRAMES_PER_HALF * 2,
            Animation::Spinner => RUN_CIRCLES * RUN_FRAMES_PER_CIRCLE,
            Animation::FinalSpiral => FINAL_SPIRAL_FRAMES,
            Animation::Warning5 => WARN5_FRAMES,
            Animation::Warning10 => WARN10_FRAMES,
        }
    }

    /// The curve of this animation.
    pub fn shape(self) -> (r: Shape)
        ensures
            r == shape_of(self),
    {
        match self {
            Animation::WakeShake => Shape::Shake {
                amplitude: WAKE_AMPLITUDE,
                period_frames: WAKE_FRAMES_PER_HALF * 2,
                jitter: WAKE_JITTER,
            },
            Animation::Spinner => Shape::Circle {
                radius: RUN_RADIUS,
                period_frames: RUN_FRAMES_PER_CIRCLE,
            },
            Animation::FinalSpiral => Shape::Spiral {
                radius_start: FINAL_SPIRAL_RADIUS_START,
                radius_end: SPIRAL_RADIUS_END,
                turns: FINAL_SPIRAL_TURNS,
            },
            Animation::Warning5 => Shape::Spiral {
                radius_start: WARN5_RADIUS_START,
                radius_end: SPIRAL_RADIUS_END,
                turns: WARN5_TURNS,
            },
            Animation::Warning10 => Shape::Spiral {
                radius_start: WARN10_RADIUS_START,
                radius_end: SPIRAL_RADIUS_END,
                turns: WARN10_TURNS,
            },
        }
    }

    /// Where on this curve `frame` lies.
    pub fn phase(self, frame: u32) -> (r: Phase)
        ensures
            r == phase_of(self, frame),
    {
        self.shape().phase(self.frames(), frame)
    }

    /// What the chart hears when this animation is done.
    pub fn report(self) -> (r: Option<Ev>)
        ensures
            r == report_of(self),
    {
        match self {
            Animation::WakeShake => None,
            Animation::Spinner => Some(Ev::SpinDone),
            Animation::FinalSpiral => Some(Ev::SpiralDone),
            Animation::Warning5 | Animation::Warning10 => Some(Ev::WarnDone),
        }
    }

    /// The next step of drawing this animation: frame by frame a move and a
    /// rest. `w` is what the curve is evaluated from at the phase of frame
    /// `stroke.frame`.
    pub fn step(self, stroke: &mut Stroke, w: Wave) -> (r: MouseStep)
        requires
            old(stroke).wf(),
            w.wf(),
        ensures
            final(stroke).wf(),
            animates(shape_of(self), frames_of(self), *old(stroke), w, r, *final(stroke)),
    {
        self.shape().step(self.frames(), stroke, w)
    }
}

/// Every drawing comes to its end, whatever its curve and its number of frames:
/// each step but the last brings it one closer, and the last is reached when no
/// step is left.
pub proof fn law_animation_ends(
    shape: Shape,
    frames: int,
    s: Stroke,
    w: Wave,
    r: MouseStep,
    next: Stroke,
)
    requires
        animates(shape, frames, s, w, r, next),
    ensures
        r == MouseStep::Done <==> steps_left(frames, s) == 0,
        r != MouseStep::Done ==> 0 <= steps_left(frames, next) == steps_left(frames, s) - 1,
{
}

/// The time that an animation is given: the shake its deadline, the spinner the
/// LED's fade, the closing spiral its budget; the warnings have no limit.
pub open spec fn time_for(a: Animation) -> Option<u64> {
    match a {
        Animation::WakeShake => Some(MOUSE_WAKE_DEADLINE),
        Animation::Spinner => Some(SPINNER_FADE_DURATION),
        Animation::FinalSpiral => Some(SHUTDOWN_ANIM_BUDGET),
        _ => None,
    }
}

/// Every animation fits the time that it is given, and the shake's deadline
/// comes before the chart moves on.
pub proof fn law_animations_fit_their_time(a: Animation)
    ensures
        time_for(a) matches Some(t) ==> frames_of(a) * ANIM_FRAME <= t,
        MOUSE_WAKE_DEADLINE < MOUSE_PHASE_DURATION,
{
}

// ---------------------------------------------------------------------------
// Waking the host with the mouse.
// ---------------------------------------------------------------------------

/// What became of a step that the driver was asked for.
#[derive(Debug, Clone, Copy, PartialEq, Eq, Structural)]
pub enum WakeEvent {
    /// The step is done.
    StepDone,
    /// The deadline passed first.
    Deadline,
}

/// `r` is the next step of the shake after `e`, and `next` where it leaves the
/// stroke.
pub open spec fn wakes(s: Stroke, e: WakeEvent, w: Wave, r: MouseStep, next: Stroke) -> bool {
    match e {
        WakeEvent::Deadline => r == MouseStep::Done && next == s,
        WakeEvent::StepDone => animates(
            shape_of(Animation::WakeShake),
            frames_of(Animation::WakeShake),
            s,
            w,
            r,
            next,
        ),
    }
}

/// The shake always comes to its end: a deadline ends it at once, and a step that
/// was done brings it one closer, over eighty frames.
pub proof fn law_shake_ends(s: Stroke, e: WakeEvent, w: Wave, r: MouseStep, next: Stroke)
    requires
        wakes(s, e, w, r, next),
    ensures
        e is Deadline ==> r is Done && next == s,
        e is StepDone ==> (r is Done <==> s.frame >= 80 && !s.resting),
        e is StepDone && !(r is Done) ==> steps_left(80, next) == steps_left(80, s) - 1,
        e is StepDone ==> animates(
            Shape::Shake { amplitude: 60, period_frames: 8, jitter: 1 },
            80,
            s,
            w,
            r,
            next,
        ),
{
}

/// The next step of the shake that wakes the host, after what became of the step
/// before: the animation's, until it is done or its deadline has passed.
pub fn mouse_wake(stroke: &mut Stroke, e: WakeEvent, w: Wave) -> (r: MouseStep)
    requires
        old(stroke).wf(),
        w.wf(),
    ensures
        final(stroke).wf(),
        wakes(*old(stroke), e, w, r, *final(stroke)),
{
    match e {
        WakeEvent::Deadline => MouseStep::Done,
        WakeEvent::StepDone => Animation::WakeShake.step(stroke, w),
    }
}

// ---------------------------------------------------------------------------
// What a drawing is.
// ---------------------------------------------------------------------------

/// A random byte picks an axis by its parity alone: one pixel to the right or one
/// pixel down.
pub proof fn law_jiggle_picks_an_axis(die: u8, other: u8)
    ensures
        die % 2 == 0 ==> nudge(die).x == 1 && nudge(die).y == 0,
        die % 2 == 1 ==> nudge(die).x == 0 && nudge(die).y == 1,
        die % 2 == other % 2 <==> nudge(die) == nudge(other),
{
}

/// A move is the whole number of pixels nearest to what is asked for, halves away
/// from zero, as far as a report can carry it; the two directions are alike.
pub proof fn law_moves_are_the_nearest(want: int)
    ensures
        ({
            let d = axis_delta(want);
            let rest = axis_rest(want);
            &&& d * 1_073_741_824 + rest == want
            &&& -127 <= d <= 127
            &&& want > 127 * 1_073_741_824 ==> d == 127
            &&& want < -127 * 1_073_741_824 ==> d == -127
            &&& -127 * 1_073_741_824 <= want <= 127 * 1_073_741_824 ==> -1_073_741_824 <= 2 * rest
                <= 1_073_741_824
            &&& 2 * rest == 1_073_741_824 && want <= 127 * 1_073_741_824 ==> d < 0
            &&& 2 * rest == -1_073_741_824 && want >= -127 * 1_073_741_824 ==> d > 0
            &&& axis_delta(-want) == -d
        }),
{
}

/// A drawing is asked, in each frame, for the way from the last target to this
/// one and what is still owed.
pub proof fn law_frames_are_asked_for_their_way(targets: Seq<int>, x: int)
    ensures
        axis_want(targets.push(x)) == x - (if targets.len() == 0 {
            0
        } else {
            targets.last()
        }) + axis_owed(targets),
        axis_owed(Seq::<int>::empty()) == 0,
        axis_moved(Seq::<int>::empty()) == 0,
        axis_owed(targets.push(x)) == axis_want(targets.push(x)) - axis_delta(
            axis_want(targets.push(x)),
        ) * 1_073_741_824,
{
    assert(targets.push(x).drop_last() =~= targets);
}

/// The points of a circle lie on it: it touches the starting point from below,
/// goes round its centre, one radius down, at the radius, and turns with the
/// angle.
pub proof fn law_circle_is_a_circle(radius: u16, period_frames: u32, w: Wave)
    requires
        w.wf(),
    ensures
        ({
            let s = Shape::Circle { radius, period_frames };
            let (x, y) = (curve_x(s, w), curve_y(s, w));
            let r = radius * 1_073_741_824;
            &&& x * x + (y - r) * (y - r) == radius * radius * (w.sin * w.sin + w.cos * w.cos)
            &&& x * (1_073_741_824 - w.cos) == y * w.sin
            &&& w.sin >= 0 ==> x >= 0
            &&& w.sin <= 0 ==> x <= 0
            &&& y >= 0
        }),
{
    let r = radius as int;
    let one = 1_073_741_824int;
    let (sn, cs) = (w.sin as int, w.cos as int);
    assert(UNIT == one);
    let x = r * sn;
    let y = r * (one - cs);
    assert(x * x + (y - r * one) * (y - r * one) == r * r * (sn * sn + cs * cs)) by (nonlinear_arith)
        requires
            x == r * sn,
            y == r * (one - cs),
    ;
    assert(x * (one - cs) == y * sn) by (nonlinear_arith)
        requires
            x == r * sn,
            y == r * (one - cs),
    ;
    assert((sn >= 0 ==> x >= 0) && (sn <= 0 ==> x <= 0) && y >= 0) by (nonlinear_arith)
        requires
            x == r * sn,
            y == r * (one - cs),
            r >= 0,
            cs <= one,
    ;
}

/// The shake swings straight with the sine, to its amplitude on either side.
pub proof fn law_shake_swings_with_the_sine(
    amplitude: u16,
    period_frames: u32,
    jitter: u16,
    w: Wave,
    v: Wave,
)
    ensures
        ({
            let s = Shape::Shake { amplitude, period_frames, jitter };
            &&& w.sin == 1_073_741_824 ==> curve_x(s, w) == amplitude * 1_073_741_824
            &&& w.sin == -1_073_741_824 ==> curve_x(s, w) == -(amplitude * 1_073_741_824)
            &&& curve_x(s, w) * v.sin == curve_x(s, v) * w.sin
            &&& w.die == v.die ==> curve_y(s, w) == curve_y(s, v)
        }),
{
    let a = amplitude as int;
    let (p, q) = (w.sin as int, v.sin as int);
    assert((a * p) * q == (a * q) * p) by (nonlinear_arith);
}

/// The shake's wobble goes evenly with its die, from all the way up to all the
/// way down.
pub proof fn law_wobble_is_even(jitter: int, die: int)
    requires
        jitter >= 0,
        0 <= die <= 255,
    ensures
        255 * wobble(jitter, die) <= jitter * 1_073_741_824 * (2 * die - 255) < 255 * (wobble(
            jitter,
            die,
        ) + 1),
        die == 0 ==> wobble(jitter, die) == -(jitter * 1_073_741_824),
        die == 255 ==> wobble(jitter, die) == jitter * 1_073_741_824,
{
    let x = jitter * UNIT * (2 * die - 255);
    assert(x == jitter * 1_073_741_824 * (2 * die - 255));
    let span = jitter * 1_073_741_824;
    if die == 0 {
        assert(span * (2 * die - 255) == -255 * span) by (nonlinear_arith)
            requires
                die == 0,
        ;
    }
    if die == 255 {
        assert(span * (2 * die - 255) == 255 * span) by (nonlinear_arith)
            requires
                die == 255,
        ;
    }
}

/// A spiral's radius goes straight with its progress.
pub proof fn law_spiral_shrinks_evenly(start: int, end: int, e1: int, e2: int)
    ensures
        (spiral_radius(start, end, e1) - spiral_radius(start, end, e2)) * 1_073_741_824 == (
        spiral_radius(start, end, 1_073_741_824) - spiral_radius(start, end, 0)) * (e1 - e2),
        spiral_radius(start, end, 0) == start * 1_073_741_824,
        spiral_radius(start, end, 1_073_741_824) == end * 1_073_741_824,
{
    let d = end - start;
    assert((d * e1 - d * e2) * 1_073_741_824 == d * 1_073_741_824 * (e1 - e2)) by (nonlinear_arith);
    assert(d * 0 == 0);
    assert(d * 1_073_741_824 == end * 1_073_741_824 - start * 1_073_741_824);
}

/// A spiral runs on its own circles: at each frame it stands, to the last part of
/// a pixel, at its radius in the direction of its angle, seen from the centre one
/// starting radius to the left of where it began.
pub proof fn law_spiral_runs_on_its_radius(
    radius_start: u16,
    radius_end: u16,
    turns: u32,
    w: Wave,
)
    ensures
        ({
            let s = Shape::Spiral { radius_start, radius_end, turns };
            let r = spiral_radius(radius_start as int, radius_end as int, w.ease as int);
            let x = curve_x(s, w) + radius_start * 1_073_741_824;
            let y = curve_y(s, w);
            &&& x * 1_073_741_824 <= r * w.cos < (x + 1) * 1_073_741_824
            &&& y * 1_073_741_824 <= r * w.sin < (y + 1) * 1_073_741_824
        }),
{
    let r = spiral_radius(radius_start as int, radius_end as int, w.ease as int);
    let (p, q) = (r * w.cos, r * w.sin);
    assert(scaled(r, w.cos as int) == p / 1_073_741_824);
    assert(scaled(r, w.sin as int) == q / 1_073_741_824);
}

/// The animations and how they are drawn: the shake in ten swings of eight frames
/// over sixty pixels, the spinner in three circles of twenty-five frames and forty
/// pixels, the spirals inwards to two pixels, the warnings smaller and shorter
/// than the last.
pub proof fn law_animations_are_these(frame: u32)
    ensures
        frames_of(Animation::WakeShake) == 80,
        shape_of(Animation::WakeShake) == (Shape::Shake {
            amplitude: 60,
            period_frames: 8,
            jitter: 1,
        }),
        frames_of(Animation::Spinner) == 75,
        shape_of(Animation::Spinner) == (Shape::Circle { radius: 40, period_frames: 25 }),
        frames_of(Animation::FinalSpiral) == 625,
        shape_of(Animation::FinalSpiral) == (Shape::Spiral {
            radius_start: 80,
            radius_end: 2,
            turns: 5,
        }),
        frames_of(Animation::Warning5) == 312,
        shape_of(Animation::Warning5) == (Shape::Spiral {
            radius_start: 50,
            radius_end: 2,
            turns: 3,
        }),
        frames_of(Animation::Warning10) == 187,
        shape_of(Animation::Warning10) == (Shape::Spiral {
            radius_start: 30,
            radius_end: 2,
            turns: 2,
        }),
        phase_of(Animation::WakeShake, frame) == (Phase::Turned { part: frame, whole: 8 }),
        phase_of(Animation::Spinner, frame) == (Phase::Turned { part: frame, whole: 25 }),
        phase_of(Animation::FinalSpiral, frame) == (Phase::Eased {
            part: frame,
            whole: 625,
            turns: 5,
        }),
{
}

/// A frame's phase is its share of the drawing: of a period for what goes round,
/// of all frames for a spiral.
pub proof fn law_phase_is_a_share(s: Shape, frames: u32, frame: u32)
    ensures
        match s {
            Shape::Shake { period_frames, .. } => phase_in(s, frames, frame) == (Phase::Turned {
                part: frame,
                whole: period_frames,
            }),
            Shape::Circle { period_frames, .. } => phase_in(s, frames, frame) == (Phase::Turned {
                part: frame,
                whole: period_frames,
            }),
            Shape::Spiral { turns, .. } => phase_in(s, frames, frame) == (Phase::Eased {
                part: frame,
                whole: frames,
                turns,
            }),
        },
{
}

/// Every frame of a drawing is one move and, after it, one rest of eight
/// milliseconds; the move goes to the point of the curve, and the frame counts
/// once.
pub proof fn law_frames_move_and_rest(
    shape: Shape,
    frames: int,
    s: Stroke,
    w: Wave,
    r: MouseStep,
    next: Stroke,
)
    requires
        animates(shape, frames, s, w, r, next),
    ensures
        r is Wait <==> s.resting,
        r is Wait ==> r == MouseStep::Wait(8_000) && next.frame == s.frame && !next.resting
            && next.prev == s.prev && next.acc == s.acc,
        r is Move <==> !s.resting && s.frame < frames,
        r matches MouseStep::Move(d) ==> {
            &&& next.frame == s.frame + 1 && next.resting
            &&& next.prev.x == curve_x(shape, w) && next.prev.y == curve_y(shape, w)
            &&& d.x * 1_073_741_824 + next.acc.x == next.prev.x - s.prev.x + s.acc.x
            &&& d.y * 1_073_741_824 + next.acc.y == next.prev.y - s.prev.y + s.acc.y
            &&& d.x == axis_delta(next.prev.x - s.prev.x + s.acc.x)
            &&& d.y == axis_delta(next.prev.y - s.prev.y + s.acc.y)
        },
        r is Done ==> next == s,
{
}

/// Each activity draws its own animation and reports its own end.
pub proof fn law_activities_draw_their_own()
    ensures
        animation_of(During::AnimateSpinner) == Some(Animation::Spinner),
        animation_of(During::AnimateWarning10) == Some(Animation::Warning10),
        animation_of(During::AnimateWarning5) == Some(Animation::Warning5),
        animation_of(During::AnimateFinalSpiral) == Some(Animation::FinalSpiral),
        report_of(Animation::Spinner) == Some(Ev::SpinDone),
        report_of(Animation::Warning10) == Some(Ev::WarnDone),
        report_of(Animation::Warning5) == Some(Ev::WarnDone),
        report_of(Animation::FinalSpiral) == Some(Ev::SpiralDone),
        report_of(Animation::WakeShake) is None,
{
}

} // verus!
