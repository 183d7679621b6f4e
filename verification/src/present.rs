//! Where a window is drawn, as opposed to where it lives.
//!
//! A pane's slot is the truth about it. A transform says how it is drawn
//! instead, from one frame to another over a while; when it lands it is either
//! let go of, and the pane is drawn where it lives again, or it is kept.

use crate::time::{elapsed, since, Nanos};
use vstd::prelude::*;

verus! {

/// How long a window that opens is animated for, in nanoseconds.
pub const OPENING: u128 = 220_000_000;

/// How long a window that closes is animated for, in nanoseconds.
pub const CLOSING: u128 = 190_000_000;

/// The compositor's clock. It advances by itself: what it says is always how
/// long ago it was started.
#[derive(Clone, Copy, Debug)]
pub struct Clock {
    pub start: Nanos,
}

impl Clock {
    /// A clock that starts at `at`.
    pub fn new(at: Nanos) -> (clock: Self)
        ensures
            clock.start == at,
    {
        Clock { start: at }
    }

    /// What the clock says at `at`.
    pub fn now(&self, at: Nanos) -> (now: Nanos)
        ensures
            now == elapsed(at, self.start),
    {
        since(at, self.start)
    }
}

/// The clock never goes back, and goes on by exactly the time that passes.
pub proof fn the_clock_goes_on(clock: Clock, one: Nanos, other: Nanos)
    requires
        one <= other,
    ensures
        elapsed(one, clock.start) <= elapsed(other, clock.start),
        clock.start <= one ==> elapsed(other, clock.start) - elapsed(one, clock.start) == other
            - one,
{
}

/// What a deform is aimed at: a place, or wherever a pane is.
#[derive(Debug)]
pub enum Anchor<R> {
    Rect(R),
    Pane(u64),
}

/// An effect that bends a window, and what it is aimed at.
#[derive(Debug)]
pub struct Deform<E, R> {
    pub effect: E,
    pub anchor: Anchor<R>,
}

/// How far along two ends an effect is mixed.
#[derive(Debug)]
pub enum Mix<E> {
    /// From an effect to the same effect at rest.
    Away(E),
    /// From an effect at rest to the effect.
    Towards(E),
    /// From one effect to another.
    Between(E, E),
}

impl<E, R> Deform<E, R> {
    /// What is mixed on the way from one frame's deform to another's, and what
    /// it is aimed at: where it is going, or what it was aimed at where it is
    /// going nowhere.
    pub fn blend(from: Option<Self>, to: Option<Self>) -> (r: Option<(Mix<E>, Anchor<R>)>)
        ensures
            r == match (from, to) {
                (None, None) => None,
                (Some(one), None) => Some((Mix::Away(one.effect), one.anchor)),
                (None, Some(other)) => Some((Mix::Towards(other.effect), other.anchor)),
                (Some(one), Some(other)) => Some(
                    (Mix::Between(one.effect, other.effect), other.anchor),
                ),
            },
    {
        match (from, to) {
            (None, None) => None,
            (Some(one), None) => Some((Mix::Away(one.effect), one.anchor)),
            (None, Some(other)) => Some((Mix::Towards(other.effect), other.anchor)),
            (Some(one), Some(other)) => Some(
                (Mix::Between(one.effect, other.effect), other.anchor),
            ),
        }
    }
}

/// A way a window is drawn, from one frame to another.
#[derive(Debug)]
pub struct Transform<F, A> {
    pub from: F,
    pub to: F,
    pub animation: A,
    /// Whether it is let go of once it lands.
    pub release: bool,
}

/// How a pane is drawn: through a transform or where it lives, and whether it
/// has been shown at all.
#[derive(Debug)]
pub struct Slot<F, A> {
    pub transform: Option<Transform<F, A>>,
    pub shown: bool,
}

impl<F, A> Default for Slot<F, A> {
    fn default() -> (slot: Self)
        ensures
            slot == (Slot::<F, A> { transform: None, shown: false }),
    {
        Slot { transform: None, shown: false }
    }
}

impl<F: Copy, A> Slot<F, A> {
    /// Whether `drawn` is how the pane is drawn: where it lives, or somewhere
    /// along its transform, which `along` says.
    pub open spec fn is_drawn<D: FnOnce(&Transform<F, A>) -> F>(
        self,
        home: F,
        along: D,
        drawn: F,
    ) -> bool {
        match self.transform {
            None => drawn == home,
            Some(transform) => call_ensures(along, (&transform,), drawn),
        }
    }

    /// How the pane is drawn: where it lives, or somewhere along its transform,
    /// which `along` says.
    pub fn frame<D: FnOnce(&Transform<F, A>) -> F>(&self, home: F, along: D) -> (drawn: F)
        requires
            self.transform matches Some(transform) ==> call_requires(along, (&transform,)),
        ensures
            self.is_drawn(home, along, drawn),
    {
        match &self.transform {
            None => home,
            Some(transform) => along(transform),
        }
    }

    /// Draw the pane at `to`, from how it is drawn now, and leave it there.
    pub fn present<D: FnOnce(&Transform<F, A>) -> F>(
        &mut self,
        home: F,
        along: D,
        to: F,
        animation: A,
    )
        requires
            old(self).transform matches Some(transform) ==> call_requires(along, (&transform,)),
        ensures
            exists|from: F| #[trigger]
                old(self).is_drawn(home, along, from) && *final(self) == (Slot {
                    transform: Some(Transform { from, to, animation, release: false }),
                    ..*old(self)
                }),
    {
        let from = self.frame(home, along);
        self.transform = Some(Transform { from, to, animation, release: false });
    }

    /// Draw the pane where it lives again, from how it is drawn now.
    pub fn clear<D: FnOnce(&Transform<F, A>) -> F>(&mut self, home: F, along: D, animation: A)
        requires
            old(self).transform matches Some(transform) ==> call_requires(along, (&transform,)),
        ensures
            exists|from: F| #[trigger]
                old(self).is_drawn(home, along, from) && *final(self) == (Slot {
                    transform: Some(Transform { from, to: home, animation, release: true }),
                    ..*old(self)
                }),
    {
        let from = self.frame(home, along);
        self.transform = Some(Transform { from, to: home, animation, release: true });
    }

    /// Draw the pane where it lives, from a frame of the caller's choosing.
    pub fn from(&mut self, start: F, home: F, animation: A)
        ensures
            *final(self) == (Slot {
                transform: Some(Transform { from: start, to: home, animation, release: true }),
                ..*old(self)
            }),
    {
        self.transform = Some(Transform { from: start, to: home, animation, release: true });
    }

    /// Draw a pane that comes, from what `coming` makes of where it lives to
    /// where it lives.
    pub fn open<C: FnOnce(F) -> F>(&mut self, home: F, coming: C, animation: A)
        requires
            call_requires(coming, (home,)),
        ensures
            exists|start: F| #[trigger]
                call_ensures(coming, (home,), start) && *final(self) == (Slot {
                    transform: Some(Transform { from: start, to: home, animation, release: true }),
                    ..*old(self)
                }),
    {
        let start = coming(home);
        self.from(start, home, animation);
    }

    /// Draw a pane that goes, from how it is drawn now to what `going` makes of
    /// that, and leave it there: it does not come back for the frames before it
    /// is taken away.
    pub fn close<D: FnOnce(&Transform<F, A>) -> F, G: FnOnce(F) -> F>(
        &mut self,
        home: F,
        along: D,
        going: G,
        animation: A,
    )
        requires
            old(self).transform matches Some(transform) ==> call_requires(along, (&transform,)),
            forall|from: F| #[trigger] call_requires(going, (from,)),
        ensures
            exists|from: F, gone: F| #[trigger]
                old(self).is_drawn(home, along, from) && #[trigger] call_ensures(
                    going,
                    (from,),
                    gone,
                ) && *final(self) == (Slot {
                    transform: Some(Transform { from, to: gone, animation, release: false }),
                    ..*old(self)
                }),
    {
        let from = self.frame(home, along);
        let gone = going(from);
        self.transform = Some(Transform { from, to: gone, animation, release: false });
    }

    /// Let go of a transform that has landed and is to be let go of; `landed`
    /// says of its animation whether it has. Says whether the pane is still
    /// moving.
    pub fn settle<L: FnOnce(&A) -> bool>(&mut self, landed: L) -> (moving: bool)
        requires
            old(self).transform matches Some(transform) ==> call_requires(
                landed,
                (&transform.animation,),
            ),
        ensures
            match old(self).transform {
                None => !moving && *final(self) == *old(self),
                Some(transform) => {
                    &&& call_ensures(landed, (&transform.animation,), !moving)
                    &&& *final(self) == if !moving && transform.release {
                        Slot { transform: None, ..*old(self) }
                    } else {
                        *old(self)
                    }
                },
            },
    {
        let (landed, release) = match &self.transform {
            None => {
                return false;
            },
            Some(transform) => (landed(&transform.animation), transform.release),
        };
        if !landed {
            return true;
        }
        if release {
            self.transform = None;
        }
        false
    }

    /// The pane has been shown. Says whether this was the first time.
    pub fn mark_shown(&mut self) -> (first: bool)
        ensures
            first == !old(self).shown,
            *final(self) == (Slot { shown: true, ..*old(self) }),
    {
        let first = !self.shown;
        self.shown = true;
        first
    }
}

/// A pane whose transform was let go of is drawn exactly where it lives.
pub proof fn what_was_let_go_of_is_drawn_where_it_lives<
    F: Copy,
    A,
    D: FnOnce(&Transform<F, A>) -> F,
>(slot: Slot<F, A>, home: F, along: D, drawn: F)
    requires
        slot.transform is None,
        slot.is_drawn(home, along, drawn),
    ensures
        drawn == home,
{
}

/// A pane with no transform is drawn where it lives and nowhere else, and one
/// with a transform is drawn where that says, wherever it lives.
pub proof fn how_a_pane_is_drawn<F: Copy, A, D: FnOnce(&Transform<F, A>) -> F>(
    slot: Slot<F, A>,
    home: F,
    along: D,
    drawn: F,
)
    ensures
        slot.transform is None ==> (slot.is_drawn(home, along, drawn) <==> drawn == home),
        slot.transform matches Some(transform) ==> (slot.is_drawn(home, along, drawn)
            <==> call_ensures(along, (&transform,), drawn)),
{
}

/// A window takes 220 milliseconds to come and 190 to go.
pub proof fn how_long_windows_come_and_go()
    ensures
        OPENING == 220 * 1_000_000,
        CLOSING == 190 * 1_000_000,
        CLOSING < OPENING,
{
}

} // verus!
