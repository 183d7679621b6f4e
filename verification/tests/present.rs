//! How panes are drawn, as opposed to where they live.

use std::time::Instant;

use solium::present::{Anchor, Clock, Deform, Mix, Slot, Transform, CLOSING, OPENING};
use solium::time::MILLISECOND;

#[test]
fn the_clock_advances_without_being_asked() {
    let began = Instant::now();
    let clock = Clock::new(5);
    let now = || clock.now(5 + began.elapsed().as_nanos());
    let first = now();
    while began.elapsed().as_millis() < 2 {}
    assert!(
        now() > first,
        "the clock must advance on its own, or an animation started \
         between two frames begins at the wrong instant"
    );
    assert_eq!(clock.now(1), 0, "and it does not run before it began");
}

/// A straight line from one instant to another.
struct Line {
    began: f64,
    ends: f64,
}

/// How far along its line a transform is drawn at an instant.
fn at(now: f64) -> impl FnOnce(&Transform<f64, Line>) -> f64 {
    move |transform| {
        let line = &transform.animation;
        let progress = ((now - line.began) / (line.ends - line.began)).clamp(0.0, 1.0);
        transform.from + (transform.to - transform.from) * progress
    }
}

fn line(began: f64, ends: f64) -> Line {
    Line { began, ends }
}

/// Whether an animation is over at an instant.
fn over(now: f64) -> impl FnOnce(&Line) -> bool {
    move |line| now >= line.ends
}

const HOME: f64 = 100.0;

#[test]
fn a_transform_that_is_let_go_of_leaves_the_pane_where_it_lives() {
    let mut slot: Slot<f64, Line> = Slot::default();
    assert!(!slot.settle(over(9.0)), "nothing to settle");
    assert_eq!(slot.frame(HOME, at(0.0)), HOME);

    slot.present(HOME, at(0.0), 200.0, line(0.0, 4.0));
    assert!(slot.settle(over(3.0)), "on its way");
    assert!(!slot.settle(over(4.0)));
    assert_eq!(slot.frame(HOME, at(9.0)), 200.0, "and it stays there");

    slot.clear(HOME, at(9.0), line(9.0, 11.0));
    assert_eq!(slot.frame(HOME, at(10.0)), 150.0);
    assert!(slot.settle(over(10.0)));
    assert!(!slot.settle(over(11.0)));
    assert!(slot.transform.is_none());

    slot.from(40.0, HOME, line(0.0, 1.0));
    assert_eq!(slot.frame(HOME, at(0.0)), 40.0);
    assert!(!slot.settle(over(1.0)));
    assert!(slot.transform.is_none());
}

#[test]
fn a_transform_that_is_turned_round_goes_on_from_where_it_is() {
    let mut slot: Slot<f64, Line> = Slot::default();
    slot.present(HOME, at(0.0), 200.0, line(0.0, 4.0));
    slot.present(HOME, at(1.0), 25.0, line(1.0, 2.0));
    assert_eq!(slot.frame(HOME, at(1.0)), 125.0, "no jump");
    assert_eq!(slot.frame(HOME, at(2.0)), 25.0);
    slot.clear(HOME, at(1.5), line(1.5, 2.0));
    assert_eq!(slot.frame(HOME, at(1.5)), 75.0);
    assert_eq!(slot.frame(HOME, at(2.0)), HOME);
}

#[test]
fn a_window_comes_to_where_it_lives_and_goes_for_good() {
    let mut slot: Slot<f64, Line> = Slot::default();
    slot.open(HOME, |home| home * 0.5, line(0.0, 1.0));
    assert_eq!(slot.frame(HOME, at(0.0)), 50.0);
    assert_eq!(slot.frame(HOME, at(1.0)), HOME);
    slot.close(HOME, at(0.5), |from| from - 75.0, line(0.5, 1.0));
    assert_eq!(slot.frame(HOME, at(0.5)), 75.0);
    assert!(!slot.settle(over(1.0)));
    assert_eq!(
        slot.frame(HOME, at(9.0)),
        0.0,
        "a window that closed does not come back for a frame"
    );
    assert_eq!((OPENING, CLOSING), (220 * MILLISECOND, 190 * MILLISECOND));
}

#[test]
fn a_pane_is_shown_for_the_first_time_once() {
    let mut slot: Slot<u8, u8> = Slot::default();
    assert!(slot.mark_shown());
    assert!(!slot.mark_shown());
    slot.from(0, 1, 2);
    assert!(!slot.mark_shown());
}

fn deform(effect: &'static str, pane: u64) -> Deform<&'static str, ()> {
    Deform {
        effect,
        anchor: Anchor::Pane(pane),
    }
}

#[test]
fn a_deform_is_aimed_where_it_is_going() {
    assert!(Deform::<u8, u8>::blend(None, None).is_none());
    assert!(matches!(
        Deform::blend(Some(deform("genie", 1)), None),
        Some((Mix::Away("genie"), Anchor::Pane(1)))
    ));
    assert!(matches!(
        Deform::blend(None, Some(deform("genie", 2))),
        Some((Mix::Towards("genie"), Anchor::Pane(2)))
    ));
    assert!(matches!(
        Deform::blend(Some(deform("genie", 1)), Some(deform("tilt", 2))),
        Some((Mix::Between("genie", "tilt"), Anchor::Pane(2)))
    ));
}
