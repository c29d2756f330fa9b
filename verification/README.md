# jiggly

A USB mouse jiggler that keeps a screen awake through the working day and goes
quiet when the day's cycle is over, together with the program that picks how
long that cycle should be. The decisions of both are a library verified with
Verus; the board, the solver and the printing stand around it.

## What is where

| module            | what it decides                                                    |
|-------------------|--------------------------------------------------------------------|
| `src/config.rs`   | every tuning number, and the four knobs of a cycle                  |
| `src/chart.rs`    | the lifecycle chart: states, timers, the event queue, one step      |
| `src/lifecycle.rs`| what the chart promises over its whole life                         |
| `src/led.rs`      | colours: breathing, blinking, the fade, the two light scripts       |
| `src/mouse.rs`    | the jiggle, and animations drawn in whole pixels                    |
| `src/kbd.rs`      | waking the host with F13, and the release that always follows       |
| `src/usb.rs`      | the serial number, and the watchdog's margin                        |
| `src/rng.rs`      | the seeded random numbers (the one trusted call, into `rand`)       |
| `src/tuning.rs`   | the workday model, its totals and its constraint                    |
| `src/rank.rs`     | weighted scores in exact fractions, and rankings                    |
| `src/text.rs`     | minutes as `3h51m` and `45m`                                        |

`app/` holds the firmware's plumbing (embassy on an RP2040) and the search
(NSGA-III from `heuropt`). It computes what is floating point, that is sines,
cosines and the easing of the spirals, and hands them to the library as integers
in parts of one. Means and percentages are divided out where they are printed;
the library keeps totals and exact fractions.

## Conventions

Times are microseconds. A theorem about several functions is a public proof
function whose name starts with `law_`; its comment says in words what it
states.

## The lifecycle

```
Booting ─▶ WakingWithKeyboard ─▶ WakingWithMouse ─▶ Settling ─▶ Spinning
                                                                   │
   ┌───────────────────────────────────────────────────────────────┘
   ▼
Active: Breathing ⇄ Flashing (after each jiggle)
        Breathing ⇄ Warning10, Warning5
   │
   ▼
Ending: Spiraling ─▶ Quiet ─▶ PoweringDown
```
