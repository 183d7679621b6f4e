//! Where a frame's time went, and how often anybody hears of it.

use solium::pacing::{
    due, frame, scene_asked, scene_rebound, scene_rendered, span, Counters, Frame, Phase, PHASES,
    REPORT_EVERY,
};
use solium::time::{MILLISECOND, SECOND};

/// The rate limit by itself.
struct Limiter {
    reported: Option<u128>,
    lines: u32,
}

impl Limiter {
    fn new() -> Self {
        Self {
            reported: None,
            lines: 0,
        }
    }

    fn missed(&mut self, at: u128) -> bool {
        let due = due(self.reported, at);
        if due {
            self.reported = Some(at);
            self.lines += 1;
        }
        due
    }
}

fn ms(count: u128) -> u128 {
    count * MILLISECOND
}

fn spent_ms(counters: &Counters, phase: Phase) -> u64 {
    counters.spent[phase.slot()] / 1_000_000
}

/// Counters in the middle of a frame.
fn counters() -> Counters {
    let mut counters = Counters::new();
    counters.on = true;
    counters.asked = true;
    counters.live = true;
    counters
}

#[test]
fn a_sustained_stall_is_one_line_a_second() {
    let mut limiter = Limiter::new();
    for frame in 0..15_600_u32 {
        limiter.missed(u128::from(frame) * 3_846_153);
    }
    assert_eq!(
        limiter.lines, 60,
        "sixty seconds of solid stall should be sixty lines"
    );
}

#[test]
fn the_first_miss_reports_immediately() {
    let mut limiter = Limiter::new();
    assert!(limiter.missed(ms(17)));
}

#[test]
fn an_occasional_miss_is_never_swallowed() {
    let mut limiter = Limiter::new();
    for second in 0..30_u128 {
        assert!(
            limiter.missed(second * 5 * SECOND),
            "a miss five seconds after the last report was dropped"
        );
    }
    assert_eq!(limiter.lines, 30);
}

#[test]
fn a_nested_phase_is_taken_out_of_the_one_around_it() {
    let mut counters = counters();
    let start = ms(40);
    counters.switch(start, Phase::Elements);
    counters.switch(start + ms(3), Phase::Qml);
    counters.switch(start + ms(7), Phase::Elements);
    counters.switch(start + ms(10), Phase::Loose);

    assert_eq!(spent_ms(&counters, Phase::Qml), 4);
    assert_eq!(
        spent_ms(&counters, Phase::Elements),
        6,
        "Qt's four milliseconds were charged to the compositor as well"
    );
}

#[test]
fn unclaimed_time_lands_in_loose() {
    let mut counters = counters();
    let start = ms(40);
    counters.switch(start, Phase::Loose);
    counters.switch(start + ms(5), Phase::Gles);
    counters.switch(start + ms(6), Phase::Loose);
    assert_eq!(spent_ms(&counters, Phase::Loose), 5);
    assert_eq!(spent_ms(&counters, Phase::Gles), 1);
}

#[test]
fn every_phase_has_a_counter_of_its_own() {
    let all = [
        Phase::Tick,
        Phase::Prep,
        Phase::Census,
        Phase::Qml,
        Phase::Elements,
        Phase::Gles,
        Phase::Commit,
        Phase::Settle,
        Phase::Loose,
    ];
    assert_eq!(all.len(), PHASES, "a phase was added and not listed");
    let mut slots: Vec<usize> = all.iter().map(|phase| phase.slot()).collect();
    assert!(
        slots.iter().all(|slot| *slot < PHASES),
        "a phase indexes past its counter array"
    );
    slots.sort_unstable();
    slots.dedup();
    assert_eq!(slots.len(), PHASES, "two phases share a counter");
}

/// One frame from `from` to `to`, with nothing in it but its deadline.
fn one_frame(counters: &mut Counters, from: u128, to: u128) -> Option<solium::pacing::Report> {
    let frame = frame(counters, true, from);
    frame.deadline(counters, ms(16), "DP-1");
    frame.drew(counters);
    frame.finish(counters, to, 3)
}

#[test]
fn a_frame_that_misses_is_reported_with_its_phases() {
    let mut counters = Counters::new();
    let frame = frame(&mut counters, true, ms(100));
    assert!(frame.on());
    frame.deadline(&mut counters, ms(16), "DP-1");
    let elements = span(&mut counters, ms(101), Phase::Elements);
    let qml = span(&mut counters, ms(104), Phase::Qml);
    scene_asked(&mut counters, true);
    scene_asked(&mut counters, false);
    scene_rendered(&mut counters);
    scene_rebound(&mut counters);
    qml.end(&mut counters, ms(114));
    elements.end(&mut counters, ms(118));
    frame.drew(&mut counters);
    let report = frame
        .finish(&mut counters, ms(120), 5)
        .expect("the first miss is reported at once");
    assert_eq!(report.total_us, 20_000);
    assert_eq!(report.deadline_us, 16_000);
    assert_eq!(report.monitor, "DP-1");
    assert_eq!((report.missed, report.frames), (1, 1));
    assert_eq!(report.span_ms, 20);
    assert_eq!(report.elements_us, 7_000);
    assert_eq!(report.qml_us, 10_000);
    assert_eq!(report.loose_us, 3_000);
    assert_eq!(report.gles_us, 0);
    assert_eq!((report.panes, report.drew), (5, 1));
    assert_eq!((report.scenes, report.animating), (2, 1));
    assert_eq!((report.rendered, report.rebound), (1, 1));
    let charged: u64 = counters.spent.iter().sum();
    assert_eq!(u128::from(charged), ms(20), "the phases add up to the frame");
}

#[test]
fn a_report_carries_the_worst_frame_since_the_last() {
    let mut counters = Counters::new();
    assert!(one_frame(&mut counters, ms(0), ms(17)).is_some());
    assert!(one_frame(&mut counters, ms(20), ms(30)).is_none(), "in time");
    assert!(one_frame(&mut counters, ms(40), ms(90)).is_none(), "not due");
    assert!(one_frame(&mut counters, ms(100), ms(120)).is_none());
    let report = one_frame(&mut counters, ms(1_000), ms(1_017)).expect("a second later");
    assert_eq!(report.total_us, 50_000, "the worst of them, not the last");
    assert_eq!((report.missed, report.frames), (3, 4));
    assert_eq!(report.span_ms, 1_000);
    assert!(counters.worst.is_none(), "and the next report starts over");
}

#[test]
fn of_two_frames_as_slow_the_earlier_is_reported_with_its_own_figures() {
    let mut counters = Counters::new();
    assert!(one_frame(&mut counters, ms(0), ms(17)).is_some());
    assert_eq!((counters.frames, counters.missed), (0, 0));

    let first = frame(&mut counters, true, ms(100));
    first.deadline(&mut counters, ms(16), "DP-1");
    let gles = span(&mut counters, ms(110), Phase::Gles);
    gles.end(&mut counters, ms(130));
    assert!(first.finish(&mut counters, ms(140), 5).is_none());

    let second = frame(&mut counters, true, ms(200));
    second.deadline(&mut counters, ms(16), "DP-2");
    let tick = span(&mut counters, ms(200), Phase::Tick);
    tick.end(&mut counters, ms(240));
    assert!(second.finish(&mut counters, ms(240), 6).is_none());
    assert_eq!((counters.frames, counters.missed), (2, 2));

    let report = one_frame(&mut counters, ms(1_100), ms(1_120)).expect("a second later");
    assert_eq!((report.total_us, report.panes), (40_000, 5));
    assert_eq!(report.monitor, "DP-1");
    assert_eq!((report.gles_us, report.loose_us, report.tick_us), (20_000, 20_000, 0));
    assert_eq!((report.missed, report.frames), (3, 3));
    assert_eq!((counters.frames, counters.missed), (0, 0));
    assert!(counters.worst.is_none());
}

#[test]
fn nothing_is_measured_where_nobody_asked() {
    let mut counters = Counters::new();
    let off = frame(&mut counters, false, ms(1));
    assert!(!off.on());
    let quiet = span(&mut counters, ms(2), Phase::Gles);
    assert_eq!(quiet.previous, None);
    scene_asked(&mut counters, true);
    quiet.end(&mut counters, ms(9));
    assert!(off.finish(&mut counters, ms(500), 1).is_none());
    assert_eq!((counters.scenes, counters.frames), (0, 0));
    assert!(
        !frame(&mut counters, true, ms(600)).on(),
        "and it is asked once, ever"
    );
    assert!(!Frame::off().on());
}

#[test]
fn a_frame_with_no_deadline_misses_none() {
    let mut counters = Counters::new();
    let frame = frame(&mut counters, true, ms(0));
    assert!(frame.finish(&mut counters, SECOND * 9, 1).is_none());
    assert_eq!((counters.frames, counters.missed), (1, 0));
    assert_eq!(REPORT_EVERY, SECOND);
}
