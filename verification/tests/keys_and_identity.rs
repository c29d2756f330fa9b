use jiggly::config::{KBD_KEY_F13, WATCHDOG_FEED_INTERVAL, WATCHDOG_TIMEOUT};
use jiggly::kbd::{
    all_up, f13_down, keyboard_report, keyboard_wake_deadline, keyboard_wake_next, keyboard_wake_restarts,
    keyboard_wake_step, wake_with_keyboard, KbdStep, WakePhase,
};
use jiggly::mouse::WakeEvent;
use jiggly::usb::make_serial;

#[test]
fn four_taps_of_f13() {
    let mut downs = 0;
    let mut ups = 0;
    let mut waited = 0;
    let mut i = 0;
    while let Some(s) = wake_with_keyboard(i) {
        match s {
            KbdStep::Down => downs += 1,
            KbdStep::Up => ups += 1,
            KbdStep::Wait(t) => waited += t,
        }
        i += 1;
    }
    assert_eq!((i, downs, ups, waited), (16, 4, 4, 320_000));
    assert_eq!(wake_with_keyboard(u32::MAX), None);
}

#[test]
fn reports_hold_f13_or_nothing() {
    let down = f13_down();
    assert_eq!((down.modifier, down.reserved, down.leds), (0, 0, 0));
    assert_eq!(down.keycodes, [KBD_KEY_F13, 0, 0, 0, 0, 0]);
    assert_eq!(KBD_KEY_F13, 0x68);
    let up = all_up();
    assert_eq!((up.modifier, up.keycodes), (0, [0; 6]));
    let r = keyboard_report(2, [1, 2, 3, 4, 5, 6]);
    assert_eq!((r.modifier, r.reserved, r.leds, r.keycodes), (2, 0, 0, [1, 2, 3, 4, 5, 6]));
}

#[test]
fn the_release_follows_wherever_the_deadline_falls() {
    for cut in 0..17 {
        let mut p = WakePhase::Tap(0);
        let mut n = 0;
        let mut last: Option<KbdStep> = None;
        while let Some(step) = keyboard_wake_step(p) {
            last = Some(step);
            let e = if n == cut { WakeEvent::Deadline } else { WakeEvent::StepDone };
            p = keyboard_wake_next(p, e);
            n += 1;
        }
        assert_eq!(p, WakePhase::Done);
        assert_eq!(last, Some(KbdStep::Up));
        assert!(n <= 17);
    }
    assert_eq!(keyboard_wake_next(WakePhase::Done, WakeEvent::StepDone), WakePhase::Done);
}

#[test]
fn races_have_their_deadlines() {
    assert_eq!(keyboard_wake_deadline(WakePhase::Tap(3)), 500_000);
    assert_eq!(keyboard_wake_deadline(WakePhase::Release), 100_000);
}

#[test]
fn serial_is_sixteen_hex_digits() {
    let s = make_serial(&[0x00, 0x1F, 0xA0, 0xFF, 0x9C, 0x45, 0x67, 0x8B]);
    assert_eq!(&s, b"001FA0FF9C45678B");
    assert_eq!(&make_serial(&[0; 8]), b"0000000000000000");
}

#[test]
fn two_boards_have_two_serials() {
    let a = [1, 2, 3, 4, 5, 6, 7, 8];
    for i in 0..8 {
        let mut b = a;
        b[i] ^= 0x10;
        assert_ne!(make_serial(&a), make_serial(&b));
    }
    for c in make_serial(&[0xAB, 0xCD, 0xEF, 0x12, 0x34, 0x56, 0x78, 0x90]) {
        assert!(c.is_ascii_digit() || (b'A'..=b'F').contains(&c));
    }
}

#[test]
fn watchdog_is_fed_before_it_bites() {
    assert_eq!((WATCHDOG_FEED_INTERVAL, WATCHDOG_TIMEOUT), (5_000_000, 8_000_000));
}

#[test]
fn only_the_release_starts_a_new_race() {
    assert!(keyboard_wake_restarts(WakePhase::Tap(3), WakePhase::Release));
    assert!(!keyboard_wake_restarts(WakePhase::Tap(3), WakePhase::Tap(4)));
    assert!(!keyboard_wake_restarts(WakePhase::Release, WakePhase::Release));
    assert!(!keyboard_wake_restarts(WakePhase::Release, WakePhase::Done));
}
