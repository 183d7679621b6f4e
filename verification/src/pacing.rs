//! Where a frame's time went, on the frames that did not fit in one.
//!
//! Every frame is measured and almost none is spoken of: a report is made when
//! a frame misses its deadline, at most once a second, and carries the worst
//! frame since the last one together with how many missed out of how many.
//!
//! The phases of a frame are exclusive. Entering one suspends whichever was
//! running and resumes it on the way out, so the numbers add up to the frame
//! rather than over-counting it.

use crate::time::{elapsed, since, Nanos};
use vstd::prelude::*;

verus! {

/// How often a report may be made, at most: a second, in nanoseconds.
pub const REPORT_EVERY: u128 = 1_000_000_000;

/// How many phases there are, which is the width of the counter array.
pub const PHASES: usize = 9;

/// The parts of a frame, each measured exclusively of the others.
#[derive(Clone, Copy, Debug, PartialEq, Eq, Structural)]
pub enum Phase {
    /// Every animation advanced by one step.
    Tick,
    /// The rest of what is done ahead of any output.
    Prep,
    /// Asking scenes whether they are still moving.
    Census,
    /// Qt rendering a scene and the compositor getting the result.
    Qml,
    /// Walking the panes and building what is drawn.
    Elements,
    /// Damage tracking and the draw calls.
    Gles,
    /// Handing the frame to the screen.
    Commit,
    /// Retiring what has landed.
    Settle,
    /// Time inside a frame that no phase claimed.
    Loose,
}

impl Phase {
    /// Which counter is this phase's own.
    pub open spec fn place(self) -> int {
        match self {
            Phase::Tick => 0,
            Phase::Prep => 1,
            Phase::Census => 2,
            Phase::Qml => 3,
            Phase::Elements => 4,
            Phase::Gles => 5,
            Phase::Commit => 6,
            Phase::Settle => 7,
            Phase::Loose => 8,
        }
    }

    /// Which counter is this phase's own.
    pub fn slot(self) -> (slot: usize)
        ensures
            slot == self.place(),
            slot < PHASES,
    {
        match self {
            Phase::Tick => 0,
            Phase::Prep => 1,
            Phase::Census => 2,
            Phase::Qml => 3,
            Phase::Elements => 4,
            Phase::Gles => 5,
            Phase::Commit => 6,
            Phase::Settle => 7,
            Phase::Loose => 8,
        }
    }
}

/// One frame's measurements, kept for as long as it is the worst one seen.
#[derive(Debug)]
pub struct Slow {
    pub total: Nanos,
    pub deadline: Nanos,
    pub monitor: String,
    pub spent: [u64; 9],
    pub panes: u32,
    pub drew: u32,
    pub scenes: u32,
    pub animating: u32,
    pub rendered: u32,
    pub rebound: u32,
}

/// Everything that is measured.
#[derive(Debug)]
pub struct Counters {
    /// Whether anything is measured at all.
    pub on: bool,
    /// Whether `on` has been decided yet.
    pub asked: bool,
    /// Whether a frame is being measured right now.
    pub live: bool,
    /// When the frame being measured began.
    pub started: Option<Nanos>,
    /// When the phase currently running began.
    pub mark: Option<Nanos>,
    /// Which phase is running.
    pub phase: Phase,
    /// Nanoseconds spent in each phase of the frame being measured.
    pub spent: [u64; 9],
    /// How many scenes were asked whether they are animating.
    pub scenes: u32,
    /// How many of them said yes.
    pub animating: u32,
    /// How many scenes were drawn.
    pub rendered: u32,
    /// How many of those had to be given a buffer of another size first.
    pub rebound: u32,
    /// How many outputs were drawn.
    pub drew: u32,
    /// How long the frame may take. Nothing for one with no deadline.
    pub deadline: Nanos,
    /// The monitor the deadline is for.
    pub monitor: String,
    /// When the frames counted below began.
    pub since: Option<Nanos>,
    /// How many frames there were since the last report.
    pub frames: u64,
    /// How many of them missed.
    pub missed: u64,
    /// The worst of those.
    pub worst: Option<Slow>,
    /// When the last report was made.
    pub reported: Option<Nanos>,
}

/// A number held to what a counter can say.
pub open spec fn counted(v: int) -> u64 {
    if v <= u64::MAX {
        v as u64
    } else {
        u64::MAX
    }
}

/// One more, held to what a small counter can say.
pub open spec fn one_more(v: u32) -> u32 {
    if v < u32::MAX {
        (v + 1) as u32
    } else {
        u32::MAX
    }
}

/// Nanoseconds held to what a counter can say.
fn count(span: Nanos) -> (r: u64)
    ensures
        r == counted(span as int),
{
    if span <= u64::MAX as u128 {
        span as u64
    } else {
        u64::MAX
    }
}

/// A phase that is being measured, and the one to go back to.
#[derive(Clone, Copy, Debug, PartialEq, Eq, Structural)]
pub struct Span {
    pub previous: Option<Phase>,
}

/// A frame, if frames are being measured.
#[derive(Clone, Copy, Debug, PartialEq, Eq, Structural)]
pub struct Frame {
    pub on: bool,
}

impl Counters {
    /// Nothing measured yet, and nobody asked whether to.
    pub fn new() -> (counters: Self)
        ensures
            !counters.on,
            !counters.asked,
            !counters.live,
            counters.started is None,
            counters.mark is None,
            counters.phase == Phase::Loose,
            counters.spent@ == Seq::new(9, |i: int| 0u64),
            counters.tally() == (0u32, 0u32, 0u32, 0u32, 0u32),
            counters.deadline == 0,
            counters.monitor@ == Seq::<char>::empty(),
            counters.since is None,
            counters.frames == 0,
            counters.missed == 0,
            counters.worst is None,
            counters.reported is None,
    {
        let counters = Counters {
            on: false,
            asked: false,
            live: false,
            started: None,
            mark: None,
            phase: Phase::Loose,
            spent: [0, 0, 0, 0, 0, 0, 0, 0, 0],
            scenes: 0,
            animating: 0,
            rendered: 0,
            rebound: 0,
            drew: 0,
            deadline: 0,
            monitor: String::new(),
            since: None,
            frames: 0,
            missed: 0,
            worst: None,
            reported: None,
        };
        assert(counters.spent@ =~= Seq::new(9, |i: int| 0u64));
        counters
    }

    /// What was counted in the frame: scenes asked, scenes animating, scenes
    /// drawn, scenes rebound, outputs drawn.
    pub open spec fn tally(self) -> (u32, u32, u32, u32, u32) {
        (self.scenes, self.animating, self.rendered, self.rebound, self.drew)
    }

    /// The counters with what has passed since the mark charged to the phase
    /// that was running.
    pub open spec fn charged(self, now: Nanos) -> Seq<u64> {
        match self.mark {
            None => self.spent@,
            Some(mark) => self.spent@.update(
                self.phase.place(),
                counted(self.spent@[self.phase.place()] + elapsed(now, mark)),
            ),
        }
    }

    /// Whether nothing is different but the phase, the mark and the time
    /// charged.
    pub open spec fn same_but_the_phase(self, before: Counters) -> bool {
        &&& self.same_but_the_clock(before)
        &&& self.live == before.live
    }

    /// Whether nothing is different but the phase, the mark, the time charged
    /// and whether a frame is live.
    pub open spec fn same_but_the_clock(self, before: Counters) -> bool {
        &&& self.on == before.on
        &&& self.asked == before.asked
        &&& self.started == before.started
        &&& self.tally() == before.tally()
        &&& self.deadline == before.deadline
        &&& self.monitor == before.monitor
        &&& self.same_report(before)
    }

    /// Whether what the next report will say is not different.
    pub open spec fn same_report(self, before: Counters) -> bool {
        &&& self.since == before.since
        &&& self.frames == before.frames
        &&& self.missed == before.missed
        &&& self.worst == before.worst
        &&& self.reported == before.reported
    }

    /// Charge what has passed to the phase that was running and begin another.
    /// Says which one was running.
    pub fn switch(&mut self, now: Nanos, next: Phase) -> (previous: Phase)
        ensures
            previous == old(self).phase,
            final(self).phase == next,
            final(self).mark == Some(now),
            final(self).spent@ == old(self).charged(now),
            final(self).same_but_the_phase(*old(self)),
            old(self).in_step() && old(self).on_time(now) ==> final(self).in_step(),
    {
        proof {
            if self.in_step() && self.on_time(now) {
                charging_keeps_step(*self, now);
            }
        }
        let previous = self.phase;
        if let Some(mark) = self.mark {
            let spent: u64 = count(since(now, mark));
            let slot: usize = previous.slot();
            let sum: u64 = self.spent[slot].saturating_add(spent);
            self.spent[slot] = sum;
        }
        self.mark = Some(now);
        self.phase = next;
        previous
    }
}

/// Begin a frame. `wanted` says whether to measure anything, and is listened
/// to the first time only.
pub fn frame(counters: &mut Counters, wanted: bool, now: Nanos) -> (frame: Frame)
    ensures
        final(counters).asked,
        final(counters).on == if old(counters).asked {
            old(counters).on
        } else {
            wanted
        },
        frame.on == final(counters).on,
        !frame.on ==> final(counters).same_but_the_knob(*old(counters)),
        frame.on ==> {
            &&& final(counters).live
            &&& final(counters).started == Some(now)
            &&& final(counters).mark == Some(now)
            &&& final(counters).phase == Phase::Loose
            &&& final(counters).spent@ == Seq::new(9, |i: int| 0u64)
            &&& final(counters).tally() == (0u32, 0u32, 0u32, 0u32, 0u32)
            &&& final(counters).deadline == 0
            &&& final(counters).monitor == old(counters).monitor
            &&& final(counters).since == if old(counters).since is None {
                Some(now)
            } else {
                old(counters).since
            }
            &&& final(counters).frames == old(counters).frames
            &&& final(counters).missed == old(counters).missed
            &&& final(counters).worst == old(counters).worst
            &&& final(counters).reported == old(counters).reported
            &&& final(counters).in_step()
        },
{
    if !counters.asked {
        counters.asked = true;
        counters.on = wanted;
    }
    if !counters.on {
        return Frame { on: false };
    }
    counters.spent = [0, 0, 0, 0, 0, 0, 0, 0, 0];
    assert(counters.spent@ =~= Seq::new(9, |i: int| 0u64));
    proof {
        nothing_adds_up_to_nothing(9);
    }
    counters.scenes = 0;
    counters.animating = 0;
    counters.rendered = 0;
    counters.rebound = 0;
    counters.drew = 0;
    counters.deadline = 0;
    counters.started = Some(now);
    counters.mark = Some(now);
    counters.phase = Phase::Loose;
    if counters.since.is_none() {
        counters.since = Some(now);
    }
    counters.live = true;
    Frame { on: true }
}

/// Begin a phase. Outside a frame nothing is measured.
pub fn span(counters: &mut Counters, now: Nanos, phase: Phase) -> (span: Span)
    ensures
        !old(counters).live ==> span.previous is None && *final(counters) == *old(counters),
        old(counters).live ==> {
            &&& span.previous == Some(old(counters).phase)
            &&& final(counters).phase == phase
            &&& final(counters).mark == Some(now)
            &&& final(counters).spent@ == old(counters).charged(now)
            &&& final(counters).same_but_the_phase(*old(counters))
            &&& old(counters).in_step() && old(counters).on_time(now)
                ==> final(counters).in_step()
        },
{
    if !counters.live {
        return Span { previous: None };
    }
    let previous = counters.switch(now, phase);
    Span { previous: Some(previous) }
}

impl Span {
    /// End a phase and go back to the one around it.
    pub fn end(self, counters: &mut Counters, now: Nanos)
        ensures
            !(old(counters).live && self.previous is Some) ==> *final(counters) == *old(counters),
            old(counters).live && self.previous is Some ==> {
                &&& Some(final(counters).phase) == self.previous
                &&& final(counters).mark == Some(now)
                &&& final(counters).spent@ == old(counters).charged(now)
                &&& final(counters).same_but_the_phase(*old(counters))
                &&& old(counters).in_step() && old(counters).on_time(now)
                    ==> final(counters).in_step()
            },
    {
        if let Some(previous) = self.previous {
            if counters.live {
                let _ = counters.switch(now, previous);
            }
        }
    }
}

/// A scene was asked whether it is animating.
pub fn scene_asked(counters: &mut Counters, animating: bool)
    ensures
        *final(counters) == if old(counters).live {
            Counters {
                scenes: one_more(old(counters).scenes),
                animating: if animating {
                    one_more(old(counters).animating)
                } else {
                    old(counters).animating
                },
                ..*old(counters)
            }
        } else {
            *old(counters)
        },
{
    if !counters.live {
        return ;
    }
    counters.scenes = counters.scenes.saturating_add(1);
    if animating {
        counters.animating = counters.animating.saturating_add(1);
    }
}

/// A scene was drawn.
pub fn scene_rendered(counters: &mut Counters)
    ensures
        *final(counters) == if old(counters).live {
            Counters { rendered: one_more(old(counters).rendered), ..*old(counters) }
        } else {
            *old(counters)
        },
{
    if counters.live {
        counters.rendered = counters.rendered.saturating_add(1);
    }
}

/// A scene was given a buffer of another size.
pub fn scene_rebound(counters: &mut Counters)
    ensures
        *final(counters) == if old(counters).live {
            Counters { rebound: one_more(old(counters).rebound), ..*old(counters) }
        } else {
            *old(counters)
        },
{
    if counters.live {
        counters.rebound = counters.rebound.saturating_add(1);
    }
}

/// Whether a report may be made: none has been, or the last one is long enough
/// ago.
pub open spec fn is_due(reported: Option<Nanos>, now: Nanos) -> bool {
    reported is None || elapsed(now, reported->0) >= REPORT_EVERY
}

/// Whether a report may be made.
pub fn due(reported: Option<Nanos>, now: Nanos) -> (r: bool)
    ensures
        r == is_due(reported, now),
{
    match reported {
        None => true,
        Some(last) => since(now, last) >= REPORT_EVERY,
    }
}

/// What is said about the frames since the last report: the worst of them, in
/// microseconds, and how many there were.
#[derive(Debug)]
pub struct Report {
    pub total_us: u64,
    pub deadline_us: u64,
    pub monitor: String,
    pub missed: u64,
    pub frames: u64,
    pub span_ms: u64,
    pub tick_us: u64,
    pub prep_us: u64,
    pub census_us: u64,
    pub qml_us: u64,
    pub elements_us: u64,
    pub gles_us: u64,
    pub commit_us: u64,
    pub settle_us: u64,
    pub loose_us: u64,
    pub panes: u32,
    pub drew: u32,
    pub scenes: u32,
    pub animating: u32,
    pub rendered: u32,
    pub rebound: u32,
}

/// A span of time in whole microseconds, held to what a counter can say.
pub open spec fn in_micros(span: Nanos) -> u64 {
    counted((span / 1_000) as int)
}

fn micros(span: Nanos) -> (r: u64)
    ensures
        r == in_micros(span),
{
    count(span / 1_000)
}

impl Report {
    /// Whether this is the report of `worst` out of `frames`, of which
    /// `missed` missed, over `span`.
    pub open spec fn tells_of(self, worst: Slow, frames: u64, missed: u64, span: Nanos) -> bool {
        &&& self.total_us == in_micros(worst.total)
        &&& self.deadline_us == in_micros(worst.deadline)
        &&& self.monitor@ == worst.monitor@
        &&& self.missed == missed
        &&& self.frames == frames
        &&& self.span_ms == in_micros(span) / 1_000
        &&& self.tick_us == worst.spent@[Phase::Tick.place()] / 1_000
        &&& self.prep_us == worst.spent@[Phase::Prep.place()] / 1_000
        &&& self.census_us == worst.spent@[Phase::Census.place()] / 1_000
        &&& self.qml_us == worst.spent@[Phase::Qml.place()] / 1_000
        &&& self.elements_us == worst.spent@[Phase::Elements.place()] / 1_000
        &&& self.gles_us == worst.spent@[Phase::Gles.place()] / 1_000
        &&& self.commit_us == worst.spent@[Phase::Commit.place()] / 1_000
        &&& self.settle_us == worst.spent@[Phase::Settle.place()] / 1_000
        &&& self.loose_us == worst.spent@[Phase::Loose.place()] / 1_000
        &&& self.panes == worst.panes
        &&& self.drew == worst.drew
        &&& self.scenes == worst.scenes
        &&& self.animating == worst.animating
        &&& self.rendered == worst.rendered
        &&& self.rebound == worst.rebound
    }
}

/// Make a report.
pub fn report(worst: &Slow, frames: u64, missed: u64, span: Nanos) -> (report: Report)
    ensures
        report.tells_of(*worst, frames, missed, span),
{
    Report {
        total_us: micros(worst.total),
        deadline_us: micros(worst.deadline),
        monitor: worst.monitor.clone(),
        missed,
        frames,
        span_ms: micros(span) / 1_000,
        tick_us: worst.spent[Phase::Tick.slot()] / 1_000,
        prep_us: worst.spent[Phase::Prep.slot()] / 1_000,
        census_us: worst.spent[Phase::Census.slot()] / 1_000,
        qml_us: worst.spent[Phase::Qml.slot()] / 1_000,
        elements_us: worst.spent[Phase::Elements.slot()] / 1_000,
        gles_us: worst.spent[Phase::Gles.slot()] / 1_000,
        commit_us: worst.spent[Phase::Commit.slot()] / 1_000,
        settle_us: worst.spent[Phase::Settle.slot()] / 1_000,
        loose_us: worst.spent[Phase::Loose.slot()] / 1_000,
        panes: worst.panes,
        drew: worst.drew,
        scenes: worst.scenes,
        animating: worst.animating,
        rendered: worst.rendered,
        rebound: worst.rebound,
    }
}

impl Counters {
    /// Whether nothing is different but whether anything is measured.
    pub open spec fn same_but_the_knob(self, before: Counters) -> bool {
        self == (Counters { on: self.on, asked: self.asked, ..before })
    }

    /// Whether the frame, ending at `now`, took longer than it may.
    pub open spec fn misses(self, now: Nanos) -> bool {
        &&& self.started is Some
        &&& self.deadline != 0
        &&& elapsed(now, self.started->0) > self.deadline
    }

    /// How long the frames counted have been counted for.
    pub open spec fn spanned(self, now: Nanos) -> int {
        match self.since {
            None => 0,
            Some(since) => elapsed(now, since),
        }
    }

    /// Whether `slow` is the frame that ends at `now`.
    pub open spec fn is_measure(self, slow: Slow, now: Nanos, panes: usize) -> bool {
        &&& slow.total == elapsed(now, self.started->0)
        &&& slow.deadline == self.deadline
        &&& slow.monitor@ == self.monitor@
        &&& slow.spent@ == self.charged(now)
        &&& slow.panes == if panes <= u32::MAX {
            panes as u32
        } else {
            u32::MAX
        }
        &&& (slow.scenes, slow.animating, slow.rendered, slow.rebound, slow.drew) == self.tally()
    }

    /// Whether `worst` is the worst frame so far, the one that ends at `now`
    /// with them: the one that was, unless this one took longer.
    pub open spec fn is_worst(self, worst: Slow, now: Nanos, panes: usize) -> bool {
        if self.worst is Some && elapsed(now, self.started->0) <= self.worst->0.total {
            worst == self.worst->0
        } else {
            self.is_measure(worst, now, panes)
        }
    }

    /// Whether nothing is different but what the next report will say, and the
    /// frame over.
    pub open spec fn over(self, before: Counters, now: Nanos) -> bool {
        &&& self.on == before.on
        &&& self.asked == before.asked
        &&& !self.live
        &&& self.mark is None
        &&& self.phase == Phase::Loose
        &&& self.spent@ == before.charged(now)
        &&& self.started == before.started
        &&& self.tally() == before.tally()
        &&& self.deadline == before.deadline
        &&& self.monitor == before.monitor
    }
}

impl Counters {
    /// Whether `after` and `said` are what ending a measured frame comes to at
    /// `now`: how the frames are counted, which is the worst of them, and what
    /// is reported.
    pub open spec fn finished(
        self,
        after: Counters,
        now: Nanos,
        panes: usize,
        said: Option<Report>,
    ) -> bool {
        &&& after.over(self, now)
        &&& if self.started is None {
            &&& said is None
            &&& after.same_report(self)
        } else if !self.misses(now) {
            &&& said is None
            &&& after.frames == counted(self.frames + 1)
            &&& after.missed == self.missed
            &&& after.worst == self.worst
            &&& after.reported == self.reported
            &&& after.since == self.since
        } else if !is_due(self.reported, now) {
            &&& said is None
            &&& after.frames == counted(self.frames + 1)
            &&& after.missed == counted(self.missed + 1)
            &&& after.worst is Some
            &&& self.is_worst(after.worst->0, now, panes)
            &&& after.reported == self.reported
            &&& after.since == self.since
        } else {
            &&& said is Some
            &&& exists|worst: Slow|
                {
                    &&& #[trigger] self.is_worst(worst, now, panes)
                    &&& said->0.tells_of(
                        worst,
                        counted(self.frames + 1),
                        counted(self.missed + 1),
                        self.spanned(now) as Nanos,
                    )
                }
            &&& after.frames == 0
            &&& after.missed == 0
            &&& after.worst is None
            &&& after.reported == Some(now)
            &&& after.since == Some(now)
        }
    }

    /// Whether the time charged to the phases is the time from the beginning of
    /// the frame to the mark.
    pub open spec fn in_step(self) -> bool {
        &&& self.started is Some
        &&& self.mark is Some
        &&& self.started->0 <= self.mark->0
        &&& self.spent@.len() == PHASES
        &&& total(self.spent@) == self.mark->0 - self.started->0
    }

    /// Whether the clock has not gone back since the mark, and the frame is one
    /// that a counter can hold.
    pub open spec fn on_time(self, now: Nanos) -> bool {
        self.mark->0 <= now && now - self.started->0 <= u64::MAX
    }
}

impl Frame {
    /// A frame that measures nothing.
    pub fn off() -> (frame: Self)
        ensures
            !frame.on,
    {
        Frame { on: false }
    }

    /// Whether this frame is measured.
    pub fn on(&self) -> (r: bool)
        ensures
            r == self.on,
    {
        self.on
    }

    /// Say how long this frame may take, and for which monitor.
    pub fn deadline(&self, counters: &mut Counters, interval: Nanos, monitor: &str)
        ensures
            !self.on ==> *final(counters) == *old(counters),
            self.on ==> {
                &&& final(counters).deadline == interval
                &&& final(counters).monitor@ == monitor@
                &&& *final(counters) == (Counters {
                    deadline: final(counters).deadline,
                    monitor: final(counters).monitor,
                    ..*old(counters)
                })
            },
    {
        if !self.on {
            return ;
        }
        counters.deadline = interval;
        counters.monitor = monitor.to_owned();
    }

    /// An output was drawn.
    pub fn drew(&self, counters: &mut Counters)
        ensures
            *final(counters) == if self.on {
                Counters { drew: one_more(old(counters).drew), ..*old(counters) }
            } else {
                *old(counters)
            },
    {
        if !self.on {
            return ;
        }
        counters.drew = counters.drew.saturating_add(1);
    }

    /// End a frame, and say what is to be reported, if anything is.
    pub fn finish(self, counters: &mut Counters, now: Nanos, panes: usize) -> (said: Option<Report>)
        ensures
            !self.on ==> said is None && *final(counters) == *old(counters),
            self.on ==> old(counters).finished(*final(counters), now, panes, said),
    {
        if !self.on {
            return None;
        }
        let _ = counters.switch(now, Phase::Loose);
        counters.live = false;
        counters.mark = None;
        let started: Nanos = match counters.started {
            None => {
                return None;
            },
            Some(started) => started,
        };
        let total: Nanos = since(now, started);
        counters.frames = counters.frames.saturating_add(1);
        if counters.deadline == 0 || total <= counters.deadline {
            return None;
        }
        counters.missed = counters.missed.saturating_add(1);
        let longer = match &counters.worst {
            None => true,
            Some(held) => total > held.total,
        };
        if longer {
            counters.worst =
            Some(
                Slow {
                    total,
                    deadline: counters.deadline,
                    monitor: counters.monitor.clone(),
                    spent: counters.spent,
                    panes: if panes <= u32::MAX as usize {
                        panes as u32
                    } else {
                        u32::MAX
                    },
                    drew: counters.drew,
                    scenes: counters.scenes,
                    animating: counters.animating,
                    rendered: counters.rendered,
                    rebound: counters.rebound,
                },
            );
        }
        if !due(counters.reported, now) {
            return None;
        }
        let span: Nanos = match counters.since {
            None => 0,
            Some(then) => since(now, then),
        };
        let frames: u64 = counters.frames;
        let missed: u64 = counters.missed;
        let worst = counters.worst.take();
        counters.reported = Some(now);
        counters.since = Some(now);
        counters.frames = 0;
        counters.missed = 0;
        let worst = match worst {
            None => {
                return None;
            },
            Some(worst) => worst,
        };
        assert(old(counters).is_worst(worst, now, panes));
        Some(report(&worst, frames, missed, span))
    }
}

/// All the time that was charged, to whatever phase.
pub open spec fn total(spent: Seq<u64>) -> int
    decreases spent.len(),
{
    if spent.len() == 0 {
        0
    } else {
        total(spent.drop_last()) + spent.last()
    }
}

proof fn total_of_one_changed(spent: Seq<u64>, i: int, v: u64)
    requires
        0 <= i < spent.len(),
    ensures
        total(spent.update(i, v)) == total(spent) - spent[i] + v,
    decreases spent.len(),
{
    let after = spent.update(i, v);
    if i == spent.len() - 1 {
        assert(after.drop_last() =~= spent.drop_last());
    } else {
        assert(after.drop_last() =~= spent.drop_last().update(i, v));
        total_of_one_changed(spent.drop_last(), i, v);
    }
}

/// A phase is measured exclusively of the others: what has passed is charged
/// once, to the phase that was running and to no other, so the phases add up
/// to the time that passed.
pub proof fn phases_add_up(counters: Counters, now: Nanos)
    requires
        counters.mark is Some,
        counters.spent@[counters.phase.place()] + elapsed(now, counters.mark->0) <= u64::MAX,
    ensures
        total(counters.charged(now)) == total(counters.spent@) + elapsed(now, counters.mark->0),
        forall|other: Phase|
            other != counters.phase ==> counters.charged(now)[#[trigger] other.place()]
                == counters.spent@[other.place()],
{
    let slot = counters.phase.place();
    total_of_one_changed(
        counters.spent@,
        slot,
        counted(counters.spent@[slot] + elapsed(now, counters.mark->0)),
    );
}

/// No two phases share a counter.
pub proof fn every_phase_has_a_counter_of_its_own(one: Phase, other: Phase)
    requires
        one != other,
    ensures
        one.place() != other.place(),
        0 <= one.place() < PHASES,
{
}

/// The counters after a run of switches, each at a time and into a phase.
pub open spec fn switched(spent: Seq<u64>, mark: Nanos, phase: Phase, steps: Seq<(Nanos, Phase)>) -> (
    Seq<u64>,
    Nanos,
    Phase,
)
    decreases steps.len(),
{
    if steps.len() == 0 {
        (spent, mark, phase)
    } else {
        let (now, next) = steps.first();
        switched(
            spent.update(phase.place(), counted(spent[phase.place()] + elapsed(now, mark))),
            now,
            next,
            steps.drop_first(),
        )
    }
}

/// However often the phases of a frame are switched, and however they nest,
/// they add up to the frame, as long as time does not run backwards and the
/// frame is one a counter can hold.
pub proof fn the_phases_of_a_frame_add_up(
    spent: Seq<u64>,
    mark: Nanos,
    phase: Phase,
    steps: Seq<(Nanos, Phase)>,
    end: Nanos,
)
    requires
        spent.len() == PHASES,
        steps.len() > 0 ==> mark <= steps.first().0,
        steps.len() > 0 ==> steps.last().0 == end,
        steps.len() == 0 ==> mark == end,
        forall|i: int, j: int| 0 <= i <= j < steps.len() ==> steps[i].0 <= steps[j].0,
        total(spent) + (end - mark) <= u64::MAX,
    ensures
        total(switched(spent, mark, phase, steps).0) == total(spent) + (end - mark),
    decreases steps.len(),
{
    if steps.len() > 0 {
        let (now, next) = steps.first();
        let rest = steps.drop_first();
        let slot = phase.place();
        assert(steps[0].0 <= steps[steps.len() - 1].0);
        total_is_at_least(spent, slot);
        let charged = spent.update(slot, counted(spent[slot] + elapsed(now, mark)));
        total_of_one_changed(spent, slot, counted(spent[slot] + elapsed(now, mark)));
        if rest.len() > 0 {
            assert(rest.first() == steps[1]);
            assert(rest.last() == steps.last());
            assert(steps[0].0 <= steps[1].0);
            assert forall|i: int, j: int| 0 <= i <= j < rest.len() implies rest[i].0
                <= rest[j].0 by {
                assert(steps[i + 1].0 <= steps[j + 1].0);
            }
        }
        the_phases_of_a_frame_add_up(charged, now, next, rest, end);
    }
}

proof fn total_is_at_least(spent: Seq<u64>, i: int)
    requires
        0 <= i < spent.len(),
    ensures
        total(spent) >= spent[i],
    decreases spent.len(),
{
    total_is_nothing_below(spent.drop_last());
    if i < spent.len() - 1 {
        total_is_at_least(spent.drop_last(), i);
    }
}

proof fn total_is_nothing_below(spent: Seq<u64>)
    ensures
        total(spent) >= 0,
    decreases spent.len(),
{
    if spent.len() > 0 {
        total_is_nothing_below(spent.drop_last());
    }
}

proof fn nothing_adds_up_to_nothing(n: nat)
    ensures
        total(Seq::new(n, |i: int| 0u64)) == 0,
    decreases n,
{
    if n > 0 {
        nothing_adds_up_to_nothing((n - 1) as nat);
        assert(Seq::new(n, |i: int| 0u64).drop_last() =~= Seq::new((n - 1) as nat, |i: int| 0u64));
    }
}

proof fn charging_keeps_step(counters: Counters, now: Nanos)
    requires
        counters.in_step(),
        counters.on_time(now),
    ensures
        total(counters.charged(now)) == now - counters.started->0,
{
    total_is_at_least(counters.spent@, counters.phase.place());
    phases_add_up(counters, now);
}

/// The phases of a frame that was in step add up to how long it took.
pub proof fn the_phases_of_a_measure_add_up(
    counters: Counters,
    slow: Slow,
    now: Nanos,
    panes: usize,
)
    requires
        counters.in_step(),
        counters.on_time(now),
        counters.is_measure(slow, now, panes),
    ensures
        total(slow.spent@) == slow.total,
{
    charging_keeps_step(counters, now);
}

/// One measured frame ending: the counters before and after, when that was,
/// what was measured of the frame and what was reported.
pub struct Ending {
    pub before: Counters,
    pub after: Counters,
    pub now: Nanos,
    pub panes: usize,
    pub slow: Slow,
    pub said: Option<Report>,
}

impl Ending {
    /// Whether the frame ended as frames do.
    pub open spec fn holds(self) -> bool {
        &&& self.before.started is Some
        &&& self.before.is_measure(self.slow, self.now, self.panes)
        &&& self.before.finished(self.after, self.now, self.panes, self.said)
    }
}

/// Whether a frame took longer than it may.
pub open spec fn is_miss(slow: Slow) -> bool {
    slow.deadline != 0 && slow.total > slow.deadline
}

/// How many of some frames missed.
pub open spec fn misses_in(run: Seq<Slow>) -> nat
    decreases run.len(),
{
    if run.len() == 0 {
        0
    } else {
        misses_in(run.drop_last()) + if is_miss(run.last()) {
            1nat
        } else {
            0
        }
    }
}

/// Whether the frame at `i` is the worst of some frames that missed: none took
/// longer, and none before it as long.
pub open spec fn is_worst_of(run: Seq<Slow>, i: int) -> bool {
    &&& 0 <= i < run.len()
    &&& is_miss(run[i])
    &&& forall|k: int|
        0 <= k < run.len() && is_miss(#[trigger] run[k]) ==> run[k].total <= run[i].total
    &&& forall|k: int| 0 <= k < i && is_miss(#[trigger] run[k]) ==> run[k].total < run[i].total
}

/// Whether two measurements say the same.
pub open spec fn same_figures(one: Slow, other: Slow) -> bool {
    &&& one.total == other.total
    &&& one.deadline == other.deadline
    &&& one.monitor@ == other.monitor@
    &&& one.spent@ == other.spent@
    &&& one.panes == other.panes
    &&& one.drew == other.drew
    &&& one.scenes == other.scenes
    &&& one.animating == other.animating
    &&& one.rendered == other.rendered
    &&& one.rebound == other.rebound
}

impl Counters {
    /// Whether these are the counts of a run of frames, and what is held is the
    /// worst of them.
    pub open spec fn counts(self, run: Seq<Slow>) -> bool {
        &&& self.frames == counted(run.len() as int)
        &&& self.missed == counted(misses_in(run) as int)
        &&& match self.worst {
            Some(worst) => exists|i: int| #[trigger]
                is_worst_of(run, i) && same_figures(worst, run[i]),
            None => forall|k: int| 0 <= k < run.len() ==> !is_miss(#[trigger] run[k]),
        }
    }
}

/// What is measured of some frames.
pub open spec fn measured(endings: Seq<Ending>) -> Seq<Slow> {
    Seq::new(endings.len(), |i: int| endings[i].slow)
}

/// Whether frames ended one after another with no report until the last: from
/// one to the next the counts stay as they are, and the first begins with none.
pub open spec fn is_run(endings: Seq<Ending>) -> bool {
    &&& forall|i: int| 0 <= i < endings.len() ==> (#[trigger] endings[i]).holds()
    &&& forall|i: int| 0 <= i < endings.len() - 1 ==> (#[trigger] endings[i]).said is None
    &&& endings.len() > 0 ==> endings[0].before.frames == 0 && endings[0].before.missed == 0
        && endings[0].before.worst is None
    &&& forall|i: int, j: int|
        0 <= i && j == i + 1 && j < endings.len() ==> {
            &&& (#[trigger] endings[j]).before.frames == (#[trigger] endings[i]).after.frames
            &&& endings[j].before.missed == endings[i].after.missed
            &&& endings[j].before.worst == endings[i].after.worst
        }
}

proof fn the_worst_with_one_more(run: Seq<Slow>, slow: Slow, i: int)
    requires
        is_worst_of(run, i),
    ensures
        is_worst_of(run.push(slow), if is_miss(slow) && slow.total > run[i].total {
            run.len() as int
        } else {
            i
        }),
{
    let more = run.push(slow);
    assert forall|k: int| 0 <= k < run.len() implies more[k] == run[k] by {}
}

/// A frame that ends is counted with those before it, and the worst of them all
/// is held, or it is reported with the counts of them all and counting begins
/// again.
pub proof fn a_frame_is_counted_with_those_before_it(ending: Ending, run: Seq<Slow>)
    requires
        ending.holds(),
        ending.before.counts(run),
    ensures
        ending.said is None ==> ending.after.counts(run.push(ending.slow)),
        ending.said matches Some(report) ==> {
            &&& ending.after.counts(Seq::empty())
            &&& exists|i: int| #[trigger]
                is_worst_of(run.push(ending.slow), i) && report.tells_of(
                    run.push(ending.slow)[i],
                    counted(run.len() as int + 1),
                    counted(misses_in(run.push(ending.slow)) as int),
                    ending.before.spanned(ending.now) as Nanos,
                )
        },
{
    let slow = ending.slow;
    let before = ending.before;
    let more = run.push(slow);
    assert(more.drop_last() =~= run);
    assert forall|k: int| 0 <= k < run.len() implies more[k] == run[k] by {}
    assert(more[run.len() as int] == slow);
    assert(is_miss(slow) == before.misses(ending.now));
    if before.worst is Some {
        let i = choose|i: int| #[trigger]
            is_worst_of(run, i) && same_figures(before.worst->0, run[i]);
        the_worst_with_one_more(run, slow, i);
    } else if is_miss(slow) {
        assert(is_worst_of(more, run.len() as int));
    }
    if before.misses(ending.now) {
        let worst = if ending.said is None {
            ending.after.worst->0
        } else {
            choose|worst: Slow|
                {
                    &&& #[trigger] before.is_worst(worst, ending.now, ending.panes)
                    &&& ending.said->0.tells_of(
                        worst,
                        counted(before.frames + 1),
                        counted(before.missed + 1),
                        before.spanned(ending.now) as Nanos,
                    )
                }
        };
        assert(exists|i: int| #[trigger] is_worst_of(more, i) && same_figures(worst, more[i])) by {
            if before.worst is Some && slow.total <= before.worst->0.total {
                let i = choose|i: int| #[trigger]
                    is_worst_of(run, i) && same_figures(before.worst->0, run[i]);
                assert(is_worst_of(more, i));
            } else {
                assert(is_worst_of(more, run.len() as int));
                assert(same_figures(worst, slow));
            }
        }
    }
}

proof fn a_run_is_counted(endings: Seq<Ending>, n: int)
    requires
        is_run(endings),
        0 <= n < endings.len(),
    ensures
        endings[n].before.counts(measured(endings.take(n))),
    decreases n,
{
    if n == 0 {
        assert(measured(endings.take(0)) =~= Seq::<Slow>::empty());
    } else {
        a_run_is_counted(endings, n - 1);
        let last = endings[n - 1];
        assert(last.holds());
        a_frame_is_counted_with_those_before_it(last, measured(endings.take(n - 1)));
        assert(measured(endings.take(n)) =~= measured(endings.take(n - 1)).push(last.slow));
        assert(endings[n].before.worst == last.after.worst);
    }
}

/// A report tells of the frames since the last one: it carries the worst of
/// those that missed, the earliest of them where several took as long, with
/// that frame's own figures, and how many there were and how many missed. The
/// phases of that frame add up to it, where it was in step, and after the report
/// counting begins again.
pub proof fn a_report_tells_of_the_frames_since_the_last(endings: Seq<Ending>)
    requires
        is_run(endings),
        endings.len() > 0,
        endings.last().said is Some,
    ensures
        ({
            let run = measured(endings);
            let last = endings.last();
            &&& exists|i: int|
                {
                    &&& #[trigger] is_worst_of(run, i)
                    &&& last.said->0.tells_of(
                        run[i],
                        counted(run.len() as int),
                        counted(misses_in(run) as int),
                        last.before.spanned(last.now) as Nanos,
                    )
                    &&& endings[i].before.in_step() && endings[i].before.on_time(endings[i].now)
                        ==> total(run[i].spent@) == run[i].total
                }
            &&& last.after.frames == 0
            &&& last.after.missed == 0
            &&& last.after.worst is None
        }),
{
    let run = measured(endings);
    let n = endings.len() - 1;
    let last = endings.last();
    assert(endings[n].holds());
    a_run_is_counted(endings, n);
    let before = measured(endings.take(n));
    a_frame_is_counted_with_those_before_it(last, before);
    assert(run =~= before.push(last.slow));
    let i = choose|i: int| #[trigger]
        is_worst_of(before.push(last.slow), i) && last.said->0.tells_of(
            before.push(last.slow)[i],
            counted(before.len() as int + 1),
            counted(misses_in(before.push(last.slow)) as int),
            last.before.spanned(last.now) as Nanos,
        );
    assert(is_worst_of(run, i));
    let worst = endings[i];
    assert(worst.holds());
    if worst.before.in_step() && worst.before.on_time(worst.now) {
        the_phases_of_a_measure_add_up(worst.before, worst.slow, worst.now, worst.panes);
    }
}

/// Reports are at least [`REPORT_EVERY`] apart.
pub proof fn reports_are_spaced(first: Nanos, second: Nanos)
    requires
        is_due(Some(first), second),
    ensures
        second >= first + REPORT_EVERY,
{
}

/// The first miss is reported at once, and so is any miss that comes after a
/// quiet spell.
pub proof fn a_miss_after_a_quiet_spell_is_reported(reported: Option<Nanos>, now: Nanos)
    requires
        reported is None || now >= reported->0 + REPORT_EVERY,
    ensures
        is_due(reported, now),
{
}

/// The worst frame is kept: it is no shorter than the frame that just ended,
/// nor than the worst before it.
pub proof fn the_worst_is_kept(counters: Counters, worst: Slow, now: Nanos, panes: usize)
    requires
        counters.is_worst(worst, now, panes),
    ensures
        worst.total >= elapsed(now, counters.started->0),
        counters.worst is Some ==> worst.total >= counters.worst->0.total,
{
}

/// What a counter says is the number, as long as there is a way to say it, and
/// the most there is a way to say after that.
pub proof fn counting_stops_at_the_most(v: int, small: u32, span: Nanos)
    requires
        v >= 0,
    ensures
        v < 0x1_0000_0000_0000_0000 ==> counted(v) == v,
        v >= 0x1_0000_0000_0000_0000 ==> counted(v) == 0xffff_ffff_ffff_ffff,
        small < 0xffff_ffff ==> one_more(small) == small + 1,
        small == 0xffff_ffff ==> one_more(small) == 0xffff_ffff,
        span < 1_000 * 0x1_0000_0000_0000_0000 ==> in_micros(span) * 1_000 <= span < in_micros(span)
            * 1_000 + 1_000,
        span >= 1_000 * 0x1_0000_0000_0000_0000 ==> in_micros(span) == 0xffff_ffff_ffff_ffff,
{
}

/// Each phase has its counter, in the order of a frame.
pub proof fn the_counters_of_the_phases()
    ensures
        Phase::Tick.place() == 0,
        Phase::Prep.place() == 1,
        Phase::Census.place() == 2,
        Phase::Qml.place() == 3,
        Phase::Elements.place() == 4,
        Phase::Gles.place() == 5,
        Phase::Commit.place() == 6,
        Phase::Settle.place() == 7,
        Phase::Loose.place() == 8,
        PHASES == 9,
        REPORT_EVERY == 1_000 * 1_000_000,
{
}

/// What has passed since the mark is charged to the phase that is running, all of
/// it where the counter can say so, and to no other; with no mark nothing is.
pub proof fn what_has_passed_is_charged(counters: Counters, now: Nanos, i: int)
    requires
        0 <= i < 9,
    ensures
        counters.charged(now).len() == 9,
        counters.mark is None ==> counters.charged(now)[i] == counters.spent@[i],
        i != counters.phase.place() ==> counters.charged(now)[i] == counters.spent@[i],
        counters.mark matches Some(mark) ==> i == counters.phase.place() ==> {
            let passed = if mark <= now {
                now - mark
            } else {
                0
            };
            counters.spent@[i] + passed <= 0xffff_ffff_ffff_ffff ==> counters.charged(now)[i]
                == counters.spent@[i] + passed
        },
{
}

/// What was counted in a frame, one count after another, and all of it with what
/// the next report will say is the same where only the phase is not.
pub proof fn what_the_phase_leaves_alone(after: Counters, before: Counters)
    ensures
        before.tally().0 == before.scenes,
        before.tally().1 == before.animating,
        before.tally().2 == before.rendered,
        before.tally().3 == before.rebound,
        before.tally().4 == before.drew,
        after.same_but_the_phase(before) <==> {
            &&& after.on == before.on && after.asked == before.asked
            &&& after.live == before.live && after.started == before.started
            &&& after.scenes == before.scenes && after.animating == before.animating
            &&& after.rendered == before.rendered && after.rebound == before.rebound
            &&& after.drew == before.drew
            &&& after.deadline == before.deadline && after.monitor == before.monitor
            &&& after.since == before.since && after.frames == before.frames
            &&& after.missed == before.missed && after.worst == before.worst
            &&& after.reported == before.reported
        },
        after.same_but_the_knob(before) ==> {
            &&& after.live == before.live && after.started == before.started
            &&& after.mark == before.mark && after.phase == before.phase
            &&& after.spent == before.spent
            &&& after.scenes == before.scenes && after.animating == before.animating
            &&& after.rendered == before.rendered && after.rebound == before.rebound
            &&& after.drew == before.drew
            &&& after.deadline == before.deadline && after.monitor == before.monitor
            &&& after.since == before.since && after.frames == before.frames
            &&& after.missed == before.missed && after.worst == before.worst
            &&& after.reported == before.reported
        },
{
}

/// A frame misses where it has a deadline and took longer, and not where it took
/// exactly as long; and a report may be made a second after the last, and not
/// before.
pub proof fn when_a_frame_misses_and_when_it_is_told(
    counters: Counters,
    slow: Slow,
    started: Nanos,
    reported: Nanos,
    now: Nanos,
)
    requires
        counters.started == Some(started),
        started <= now,
        reported <= now,
    ensures
        counters.deadline == 0 ==> !counters.misses(now),
        counters.deadline > 0 ==> (counters.misses(now) <==> now - started > counters.deadline),
        slow.deadline == 0 ==> !is_miss(slow),
        slow.deadline > 0 ==> (is_miss(slow) <==> slow.total > slow.deadline),
        is_due(None, now),
        is_due(Some(reported), now) <==> now - reported >= 1_000_000_000,
        counters.since is None ==> counters.spanned(now) == 0,
        counters.since matches Some(since) ==> since <= now ==> counters.spanned(now) == now
            - since,
{
}

/// What a frame comes to when it ends: it is counted; one that missed is counted
/// as a miss, and is the worst where it took longer than the worst before it; and
/// a miss is reported where the last report is a second ago, whereupon counting
/// begins again.
pub proof fn what_the_end_of_a_frame_changes(
    before: Counters,
    after: Counters,
    started: Nanos,
    now: Nanos,
    panes: usize,
    said: Option<Report>,
)
    requires
        before.finished(after, now, panes, said),
        before.started == Some(started),
        started <= now,
        before.frames < 0xffff_ffff_ffff_ffff,
        before.missed < 0xffff_ffff_ffff_ffff,
    ensures
        ({
            let missed = before.deadline > 0 && now - started > before.deadline;
            let told = before.reported is None || now >= before.reported->0 + 1_000_000_000;
            &&& said is Some <==> missed && told
            &&& !missed ==> {
                &&& after.frames == before.frames + 1
                &&& after.missed == before.missed
                &&& after.worst == before.worst
            }
            &&& missed && !told ==> {
                &&& after.frames == before.frames + 1
                &&& after.missed == before.missed + 1
                &&& after.worst is Some
                &&& before.worst is Some && now - started <= before.worst->0.total ==> after.worst
                    == before.worst
                &&& before.worst is None || now - started > before.worst->0.total ==> {
                    &&& after.worst->0.total == now - started
                    &&& after.worst->0.deadline == before.deadline
                    &&& after.worst->0.monitor@ == before.monitor@
                }
            }
            &&& !(missed && told) ==> after.reported == before.reported && after.since
                == before.since
            &&& missed && told ==> {
                &&& after.frames == 0 && after.missed == 0 && after.worst is None
                &&& after.reported == Some(now) && after.since == Some(now)
                &&& said->0.frames == before.frames + 1
                &&& said->0.missed == before.missed + 1
            }
            &&& !after.live && after.mark is None && after.phase == Phase::Loose
            &&& after.on == before.on && after.asked == before.asked
            &&& after.started == before.started
            &&& after.spent@ == before.charged(now)
            &&& after.scenes == before.scenes && after.animating == before.animating
            &&& after.rendered == before.rendered && after.rebound == before.rebound
            &&& after.drew == before.drew
            &&& after.deadline == before.deadline && after.monitor == before.monitor
        }),
{
}

/// A frame with no beginning is not counted when it ends.
pub proof fn a_frame_that_never_began_is_not_counted(
    before: Counters,
    after: Counters,
    now: Nanos,
    panes: usize,
    said: Option<Report>,
)
    requires
        before.finished(after, now, panes, said),
        before.started is None,
    ensures
        said is None,
        after.frames == before.frames,
        after.missed == before.missed,
        after.worst == before.worst,
        after.reported == before.reported,
        after.since == before.since,
{
}

/// What is measured of a frame is that frame's: how long it took, what it was
/// allowed, where its time went and what was counted in it.
pub proof fn what_is_measured_of_a_frame(
    counters: Counters,
    slow: Slow,
    started: Nanos,
    now: Nanos,
    panes: usize,
)
    requires
        counters.is_measure(slow, now, panes),
        counters.started == Some(started),
        started <= now,
    ensures
        slow.total == now - started,
        slow.deadline == counters.deadline,
        slow.monitor@ == counters.monitor@,
        slow.spent@ == counters.charged(now),
        panes <= 0xffff_ffff ==> slow.panes == panes,
        panes > 0xffff_ffff ==> slow.panes == 0xffff_ffff,
        slow.drew == counters.drew,
        slow.scenes == counters.scenes,
        slow.animating == counters.animating,
        slow.rendered == counters.rendered,
        slow.rebound == counters.rebound,
{
}

/// A report says of the worst frame how long it took, what it was allowed and
/// where its time went, in microseconds, and how long the frames were counted
/// for, in milliseconds.
pub proof fn what_a_report_says(
    report: Report,
    worst: Slow,
    frames: u64,
    missed: u64,
    span: Nanos,
)
    requires
        report.tells_of(worst, frames, missed, span),
        worst.total < 0x1_0000_0000_0000_0000,
        worst.deadline < 0x1_0000_0000_0000_0000,
        span < 0x1_0000_0000_0000_0000,
    ensures
        report.total_us == worst.total / 1_000,
        report.deadline_us == worst.deadline / 1_000,
        report.monitor@ == worst.monitor@,
        report.missed == missed,
        report.frames == frames,
        report.span_ms == span / 1_000_000,
        report.tick_us == worst.spent@[0] / 1_000,
        report.prep_us == worst.spent@[1] / 1_000,
        report.census_us == worst.spent@[2] / 1_000,
        report.qml_us == worst.spent@[3] / 1_000,
        report.elements_us == worst.spent@[4] / 1_000,
        report.gles_us == worst.spent@[5] / 1_000,
        report.commit_us == worst.spent@[6] / 1_000,
        report.settle_us == worst.spent@[7] / 1_000,
        report.loose_us == worst.spent@[8] / 1_000,
        report.panes == worst.panes,
        report.drew == worst.drew,
        report.scenes == worst.scenes,
        report.animating == worst.animating,
        report.rendered == worst.rendered,
        report.rebound == worst.rebound,
{
}

/// All the time that was charged is what was charged to each phase, added up, and
/// a frame is in step where that is the time from its beginning to the mark.
pub proof fn all_the_phases_are_added_up(counters: Counters)
    ensures
        ({
            let spent = counters.spent@;
            total(spent) == spent[0] + spent[1] + spent[2] + spent[3] + spent[4] + spent[5]
                + spent[6] + spent[7] + spent[8]
        }),
        counters.in_step() <==> {
            &&& counters.started is Some && counters.mark is Some
            &&& counters.started->0 <= counters.mark->0
            &&& total(counters.spent@) == counters.mark->0 - counters.started->0
        },
{
    reveal_with_fuel(total, 10);
}

/// How many of some frames missed: one more where one more did.
pub proof fn misses_are_counted_one_by_one(run: Seq<Slow>, slow: Slow)
    ensures
        misses_in(Seq::empty()) == 0,
        slow.deadline > 0 && slow.total > slow.deadline ==> misses_in(run.push(slow)) == misses_in(
            run,
        ) + 1,
        slow.deadline == 0 || slow.total <= slow.deadline ==> misses_in(run.push(slow))
            == misses_in(run),
{
    assert(run.push(slow).drop_last() =~= run);
}

} // verus!
