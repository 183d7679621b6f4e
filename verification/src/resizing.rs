//! The rectangle a live edge drag owns, and what fills it until the client
//! catches up.
//!
//! While a drag is live the pane's slot is authoritative for the window's size
//! and the client is catching up: the compositor draws the rectangle the user
//! is dragging at once, and bridges the client's last buffer into it. A client
//! may refuse the size it is offered, so any answer ends the bridge, whatever
//! the answer says, and a client that answers nothing is given up on at a
//! deadline.

use crate::geometry::{is_coordinate, larger, Point, Rect, Size};
use crate::pane::{PaneId, Window};
use crate::text::same;
use crate::time::{elapsed, since, Nanos};
use vstd::prelude::*;

verus! {

/// How often a client is told its new size while an edge is being dragged: a
/// tenth of a second, in nanoseconds.
pub const TELL_EVERY: u128 = 100_000_000;

/// How long the pane keeps the rectangle the drag ended on, waiting for the
/// client to answer the last configure: a quarter second, in nanoseconds.
pub const PATIENCE: u128 = 250_000_000;

/// How far a client's answer may miss the size it was offered and still count
/// as tracking it, as a denominator: a twentieth.
pub const ROUNDING: i64 = 20;

/// The floor under [`ROUNDING`], in pixels: the tallest character cell an
/// ordinary font produces.
pub const CELL: i64 = 24;

/// How many configures a client may leave unanswered before it is judged
/// against the ask the drag has reached rather than the one it last replied
/// to.
pub const SILENCE: u32 = 2;

/// What fills a pane between the drag asking for a rectangle and the client
/// filling it.
#[derive(Clone, Copy, Debug, PartialEq, Eq, Structural)]
pub enum Fill {
    /// Scale the client's last buffer into the pane's rectangle.
    Stretch,
    /// Keep the last buffer at its own size inside the new rectangle.
    Hold,
    /// Draw the pane's scene over the client until it arrives.
    Scene,
}

impl Default for Fill {
    fn default() -> (fill: Self)
        ensures
            fill == Fill::Stretch,
    {
        Fill::Stretch
    }
}

impl Fill {
    /// The fill a configuration calls by these characters, if it is one.
    pub open spec fn called(name: Seq<char>) -> Option<Fill> {
        if name == "stretch"@ {
            Some(Fill::Stretch)
        } else if name == "hold"@ {
            Some(Fill::Hold)
        } else if name == "scene"@ {
            Some(Fill::Scene)
        } else {
            None
        }
    }

    /// Read a fill from the name a configuration uses. `None` for a name that
    /// is not one, so the caller can say which word it did not understand.
    pub fn named(name: &str) -> (fill: Option<Self>)
        ensures
            fill == Self::called(name@),
    {
        if same(name, "stretch") {
            Some(Fill::Stretch)
        } else if same(name, "hold") {
            Some(Fill::Hold)
        } else if same(name, "scene") {
            Some(Fill::Scene)
        } else {
            None
        }
    }

    /// Whether a picture drawn through this fill is never enlarged: a held
    /// buffer keeps its own size where the pane has grown past it.
    pub open spec fn keeps_size(fill: Option<Fill>) -> bool {
        fill == Some(Fill::Hold) || fill == Some(Fill::Scene)
    }
}

/// Whether the factor a client's buffer is scaled by is capped at one: it is
/// under a hold that does not stretch, and for no other window.
pub fn capped(fill: Option<Fill>) -> (r: bool)
    ensures
        r == Fill::keeps_size(fill),
{
    match fill {
        None | Some(Fill::Stretch) => false,
        Some(Fill::Hold) | Some(Fill::Scene) => true,
    }
}

/// What a configuration said about resizing.
#[derive(Clone, Copy, Debug, PartialEq, Eq, Structural)]
pub struct Settings {
    pub fill: Fill,
}

impl Default for Settings {
    fn default() -> (settings: Self)
        ensures
            settings.fill == Fill::Stretch,
    {
        Settings { fill: Fill::Stretch }
    }
}

/// Which edges of a window a drag has hold of.
#[derive(Clone, Copy, Debug, PartialEq, Eq, Structural)]
pub enum ResizeEdge {
    /// No edge at all.
    Neither,
    Top,
    Bottom,
    Left,
    TopLeft,
    BottomLeft,
    Right,
    TopRight,
    BottomRight,
}

impl ResizeEdge {
    /// Whether the left edge is one of them.
    pub open spec fn has_left(self) -> bool {
        self is Left || self is TopLeft || self is BottomLeft
    }

    /// Whether the right edge is one of them.
    pub open spec fn has_right(self) -> bool {
        self is Right || self is TopRight || self is BottomRight
    }

    /// Whether the top edge is one of them.
    pub open spec fn has_top(self) -> bool {
        self is Top || self is TopLeft || self is TopRight
    }

    /// Whether the bottom edge is one of them.
    pub open spec fn has_bottom(self) -> bool {
        self is Bottom || self is BottomLeft || self is BottomRight
    }
}

/// Whether a drag of these edges moves the left one.
pub fn pulls_left(edges: ResizeEdge) -> (r: bool)
    ensures
        r == edges.has_left(),
{
    match edges {
        ResizeEdge::Left | ResizeEdge::TopLeft | ResizeEdge::BottomLeft => true,
        _ => false,
    }
}

/// Whether a drag of these edges moves the top one.
pub fn pulls_top(edges: ResizeEdge) -> (r: bool)
    ensures
        r == edges.has_top(),
{
    match edges {
        ResizeEdge::Top | ResizeEdge::TopLeft | ResizeEdge::TopRight => true,
        _ => false,
    }
}

/// Which way a settled hold went.
#[derive(Clone, Copy, Debug, PartialEq, Eq, Structural)]
pub enum Settle {
    /// The drag is still live, or the client has not answered the last
    /// configure yet.
    Waiting,
    /// The client is the size the pane is.
    Done,
    /// The client answered with a size of its own, or never answered at all,
    /// and the pane takes the client's size.
    Adopt(Size),
}

/// The bookkeeping that says the pane's slot is in charge, and when it stops.
#[derive(Clone, Copy, Debug)]
pub struct Hold {
    /// Which edges the pointer is dragging, so an adoption can pin the others.
    pub edges: ResizeEdge,
    /// The client's size when it was last spoken to. Anything else is an
    /// answer.
    pub since: Size,
    /// The client rectangle the last configure asked for.
    pub asked: Rect,
    /// When it was sent.
    pub told: Nanos,
    /// When the pointer let go, if it has.
    pub released: Option<Nanos>,
    /// The last size this client was offered and did not take.
    pub declined: Option<Size>,
    /// How many configures have gone out since the client last said anything.
    pub unanswered: u32,
}

/// A window whose pane's slot is in charge of its size.
#[derive(Debug)]
pub struct Held {
    pub window: Window,
    pub pane: PaneId,
    pub hold: Hold,
}

/// How far off `asked` an answer along one axis may be and still be a
/// rounding: a twentieth of it, and a character cell at the least.
pub open spec fn slack(asked: i32) -> int {
    larger(
        (if asked < 0 {
            -asked
        } else {
            asked as int
        }) / ROUNDING as int,
        CELL as int,
    )
}

/// Whether `given` is near enough to `asked` along one axis.
pub open spec fn near(asked: i32, given: i32) -> bool {
    -slack(asked) <= given - asked <= slack(asked)
}

/// Whether `given` is near enough to `asked` to be a rounding of it.
pub open spec fn rounding_of(asked: Size, given: Size) -> bool {
    near(asked.w, given.w) && near(asked.h, given.h)
}

fn is_near(asked: i32, given: i32) -> (r: bool)
    ensures
        r == near(asked, given),
{
    let wide: i64 = if asked < 0 {
        -(asked as i64)
    } else {
        asked as i64
    };
    let share: i64 = wide / ROUNDING;
    let allowed: i64 = if share >= CELL {
        share
    } else {
        CELL
    };
    let off: i64 = given as i64 - asked as i64;
    -allowed <= off && off <= allowed
}

/// Whether `given` is near enough to `asked` to be a rounding.
pub fn rounds(asked: Size, given: Size) -> (r: bool)
    ensures
        r == rounding_of(asked, given),
{
    is_near(asked.w, given.w) && is_near(asked.h, given.h)
}

impl Hold {
    /// The hold once the client has been seen at `client`: a size it was not
    /// at before is an answer to the last configure, and a refusal of it
    /// unless it is the size that was asked for.
    pub open spec fn noted(self, client: Size) -> Hold {
        if client == self.since {
            self
        } else {
            Hold {
                since: client,
                unanswered: 0,
                declined: if client == self.asked.size {
                    None
                } else {
                    Some(self.asked.size)
                },
                ..self
            }
        }
    }

    /// Whether `wanted` is worth putting on the wire at `now`: it is news, and
    /// either nothing throttles it or the interval is up.
    pub open spec fn tells(self, wanted: Rect, now: Nanos, throttled: bool) -> bool {
        &&& wanted != self.asked
        &&& throttled ==> self.released is Some || elapsed(now, self.told) >= TELL_EVERY
    }

    /// The hold once `wanted` has been put on the wire at `now`.
    pub open spec fn having_told(self, wanted: Rect, now: Nanos) -> Hold {
        Hold {
            asked: wanted,
            told: now,
            unanswered: if self.unanswered < u32::MAX {
                (self.unanswered + 1) as u32
            } else {
                u32::MAX
            },
            ..self
        }
    }

    /// Whether the mismatch between what was asked and what the client gave is
    /// big enough to take the configured fill away.
    pub open spec fn is_refused(self) -> bool {
        match self.declined {
            Some(answered) => !rounding_of(
                if self.unanswered >= SILENCE {
                    self.asked.size
                } else {
                    answered
                },
                self.since,
            ),
            None => false,
        }
    }

    /// What a hold settles to at `now`, its client having been noted.
    pub open spec fn verdict(self, client: Size, now: Nanos) -> Settle {
        match self.released {
            None => Settle::Waiting,
            Some(released) => if client == self.asked.size {
                Settle::Done
            } else if self.declined == Some(self.asked.size) || elapsed(now, released) >= PATIENCE {
                Settle::Adopt(client)
            } else {
                Settle::Waiting
            },
        }
    }

    /// Take charge of a window's size, having just asked it for `asked`.
    /// `released` says when the gesture ended, if it already has.
    pub fn new(
        edges: ResizeEdge,
        client: Size,
        asked: Rect,
        now: Nanos,
        released: Option<Nanos>,
    ) -> (hold: Self)
        ensures
            hold == (Hold {
                edges,
                since: client,
                asked,
                told: now,
                released,
                declined: None,
                unanswered: 1,
            }),
    {
        Hold { edges, since: client, asked, told: now, released, declined: None, unanswered: 1 }
    }

    /// Whether the picture has to stay against the right edge, because the
    /// left one is being pulled, and against the bottom one, because the top
    /// one is.
    pub fn pins(&self) -> (r: (bool, bool))
        ensures
            r == (self.edges.has_left(), self.edges.has_top()),
    {
        (pulls_left(self.edges), pulls_top(self.edges))
    }

    /// The rectangle the client was last asked for.
    pub fn asked(&self) -> (r: Rect)
        ensures
            r == self.asked,
    {
        self.asked
    }

    /// How many configures have gone out since the client last answered.
    pub fn unanswered(&self) -> (n: u32)
        ensures
            n == self.unanswered,
    {
        self.unanswered
    }

    /// The drag has hold of other edges now.
    pub fn retargeted(&mut self, edges: ResizeEdge)
        ensures
            *final(self) == (Hold { edges, ..*old(self) }),
    {
        self.edges = edges;
    }

    /// Record where the client has got to.
    pub fn note(&mut self, client: Size)
        ensures
            *final(self) == old(self).noted(client),
    {
        if client == self.since {
            return ;
        }
        self.since = client;
        self.unanswered = 0;
        if client == self.asked.size {
            self.declined = None;
        } else {
            self.declined = Some(self.asked.size);
        }
    }

    /// Offer the client a rectangle, and say what to put on the wire, if
    /// anything.
    pub fn offered(&mut self, wanted: Rect, client: Size, now: Nanos, throttled: bool) -> (told:
        Option<Rect>)
        ensures
            ({
                let noted = old(self).noted(client);
                if noted.tells(wanted, now, throttled) {
                    &&& told == Some(wanted)
                    &&& *final(self) == noted.having_told(wanted, now)
                } else {
                    &&& told is None
                    &&& *final(self) == noted
                }
            }),
    {
        self.note(client);
        if wanted == self.asked {
            return None;
        }
        if throttled && self.released.is_none() && since(now, self.told) < TELL_EVERY {
            return None;
        }
        self.asked = wanted;
        self.told = now;
        self.unanswered = self.unanswered.saturating_add(1);
        Some(wanted)
    }

    /// The drag has reached `wanted`: what to tell the client, throttled.
    pub fn dragged(&mut self, wanted: Rect, client: Size, now: Nanos) -> (told: Option<Rect>)
        ensures
            ({
                let noted = old(self).noted(client);
                if noted.tells(wanted, now, true) {
                    &&& told == Some(wanted)
                    &&& *final(self) == noted.having_told(wanted, now)
                } else {
                    &&& told is None
                    &&& *final(self) == noted
                }
            }),
    {
        self.offered(wanted, client, now, true)
    }

    /// Something other than the drag put the window at `wanted`: what to tell
    /// the client, with no throttle.
    pub fn placed(&mut self, wanted: Rect, client: Size, now: Nanos) -> (told: Option<Rect>)
        ensures
            ({
                let noted = old(self).noted(client);
                if wanted != noted.asked {
                    &&& told == Some(wanted)
                    &&& *final(self) == noted.having_told(wanted, now)
                } else {
                    &&& told is None
                    &&& *final(self) == noted
                }
            }),
    {
        self.offered(wanted, client, now, false)
    }

    /// The pointer let go at `wanted`, which the client is always told.
    pub fn release(&mut self, wanted: Rect, client: Size, now: Nanos) -> (told: Rect)
        ensures
            told == wanted,
            *final(self) == (Hold {
                asked: wanted,
                told: now,
                released: Some(now),
                ..old(self).noted(client)
            }),
    {
        self.note(client);
        self.asked = wanted;
        self.told = now;
        self.released = Some(now);
        wanted
    }

    /// Whether the hold is over, and whose size won.
    pub fn settle(&mut self, client: Size, now: Nanos) -> (settle: Settle)
        ensures
            *final(self) == old(self).noted(client),
            settle == final(self).verdict(client, now),
            old(self).released is None ==> settle == Settle::Waiting,
            old(self).released is Some && client == old(self).asked.size ==> settle == Settle::Done,
            settle matches Settle::Adopt(size) ==> size == client && client != old(self).asked.size,
    {
        self.note(client);
        let released: Nanos = match self.released {
            None => {
                return Settle::Waiting;
            },
            Some(released) => released,
        };
        if client == self.asked.size {
            return Settle::Done;
        }
        if let Some(declined) = self.declined {
            if declined == self.asked.size {
                return Settle::Adopt(client);
            }
        }
        if since(now, released) >= PATIENCE {
            return Settle::Adopt(client);
        }
        Settle::Waiting
    }

    /// The size a pane of this size is given: never less than a pixel each
    /// way.
    pub open spec fn floored(size: Size) -> Size {
        Size { w: larger(size.w as int, 1) as i32, h: larger(size.h as int, 1) as i32 }
    }

    /// The slot a pane takes with `size`, pinned to the edges of `slot` that
    /// the drag did not touch.
    pub fn anchored(&self, slot: Rect, size: Size) -> (landed: Rect)
        requires
            self.edges.has_left() ==> is_coordinate(slot.loc.x + slot.size.w) && is_coordinate(
                slot.loc.x + slot.size.w - Self::floored(size).w,
            ),
            self.edges.has_top() ==> is_coordinate(slot.loc.y + slot.size.h) && is_coordinate(
                slot.loc.y + slot.size.h - Self::floored(size).h,
            ),
        ensures
            landed.size == Self::floored(size),
            landed.loc.x == if self.edges.has_left() {
                slot.loc.x + slot.size.w - landed.size.w
            } else {
                slot.loc.x as int
            },
            landed.loc.y == if self.edges.has_top() {
                slot.loc.y + slot.size.h - landed.size.h
            } else {
                slot.loc.y as int
            },
    {
        let size = Size { w: crate::geometry::max(size.w, 1), h: crate::geometry::max(size.h, 1) };
        let x: i32 = if pulls_left(self.edges) {
            slot.loc.x + slot.size.w - size.w
        } else {
            slot.loc.x
        };
        let y: i32 = if pulls_top(self.edges) {
            slot.loc.y + slot.size.h - size.h
        } else {
            slot.loc.y
        };
        Rect { loc: Point { x, y }, size }
    }

    /// Hand this hold to a gesture that has just started on the same window.
    pub fn rearm(&mut self, released: Option<Nanos>)
        ensures
            *final(self) == (Hold { released, ..*old(self) }),
    {
        self.released = released;
    }

    /// Whether the client has walked away from what it is being asked for.
    pub fn refused(&self) -> (r: bool)
        ensures
            r == self.is_refused(),
    {
        match self.declined {
            None => false,
            Some(answered) => {
                let judged = if self.unanswered >= SILENCE {
                    self.asked.size
                } else {
                    answered
                };
                !rounds(judged, self.since)
            },
        }
    }

    /// What fills the gap now: the configured fill, unless the client refused.
    pub fn fill(&self, configured: Fill) -> (fill: Fill)
        ensures
            fill == if self.is_refused() {
                Fill::Hold
            } else {
                configured
            },
    {
        if self.refused() {
            Fill::Hold
        } else {
            configured
        }
    }
}

/// Whether exactly one end of a span along an axis moved, and it was the near
/// one.
pub open spec fn near_end_moved(at: int, long: int, to: int, wide: int) -> bool {
    at != to && at + long == to + wide
}

/// Whether exactly one end of a span along an axis moved, and it was the far
/// one.
pub open spec fn far_end_moved(at: int, long: int, to: int, wide: int) -> bool {
    at == to && at + long != to + wide
}

/// Whether a rectangle's edges past its corner are coordinates.
pub open spec fn ends(rect: Rect) -> bool {
    is_coordinate(rect.loc.x + rect.size.w) && is_coordinate(rect.loc.y + rect.size.h)
}

/// Which edges of a pane moved between two rectangles. Along an axis where
/// both did, the pane was moved and not resized, and neither is named.
pub fn moved_edges(before: Rect, after: Rect) -> (edges: ResizeEdge)
    requires
        ends(before),
        ends(after),
    ensures
        edges.has_left() == near_end_moved(
            before.loc.x as int,
            before.size.w as int,
            after.loc.x as int,
            after.size.w as int,
        ),
        edges.has_right() == far_end_moved(
            before.loc.x as int,
            before.size.w as int,
            after.loc.x as int,
            after.size.w as int,
        ),
        edges.has_top() == near_end_moved(
            before.loc.y as int,
            before.size.h as int,
            after.loc.y as int,
            after.size.h as int,
        ),
        edges.has_bottom() == far_end_moved(
            before.loc.y as int,
            before.size.h as int,
            after.loc.y as int,
            after.size.h as int,
        ),
{
    let left = before.loc.x != after.loc.x;
    let right = before.loc.x + before.size.w != after.loc.x + after.size.w;
    let top = before.loc.y != after.loc.y;
    let bottom = before.loc.y + before.size.h != after.loc.y + after.size.h;
    match (left && !right, right && !left, top && !bottom, bottom && !top) {
        (true, _, true, _) => ResizeEdge::TopLeft,
        (true, _, _, true) => ResizeEdge::BottomLeft,
        (true, _, _, _) => ResizeEdge::Left,
        (_, true, true, _) => ResizeEdge::TopRight,
        (_, true, _, true) => ResizeEdge::BottomRight,
        (_, true, _, _) => ResizeEdge::Right,
        (_, _, true, _) => ResizeEdge::Top,
        (_, _, _, true) => ResizeEdge::Bottom,
        _ => ResizeEdge::Neither,
    }
}

/// Any answer ends the bridge: once the pointer has let go, a client seen at a
/// size it was not at before leaves nothing to wait for, whatever the size.
pub proof fn any_answer_ends_the_bridge(hold: Hold, client: Size, now: Nanos)
    requires
        hold.released is Some,
        client != hold.since,
    ensures
        hold.noted(client).verdict(client, now) !is Waiting,
{
}

/// A client that answers nothing is given up on: no hold waits past its
/// deadline, whatever its client has or has not said.
pub proof fn the_deadline_ends_the_bridge(hold: Hold, client: Size, now: Nanos)
    requires
        hold.released is Some,
        elapsed(now, hold.released->0) >= PATIENCE,
    ensures
        hold.noted(client).verdict(client, now) !is Waiting,
{
}

/// The client wins: a size that is adopted is the client's own, and a hold
/// that is done has the client at the size it was asked for.
pub proof fn the_client_wins(hold: Hold, client: Size, now: Nanos)
    ensures
        hold.noted(client).verdict(client, now) matches Settle::Adopt(size) ==> size == client,
        hold.noted(client).verdict(client, now) is Done ==> client == hold.asked.size,
{
}

/// While a drag is live its client is told nothing within an interval of the
/// last thing it was told, however often the drag moves and whatever the
/// client answers in between.
pub proof fn configures_are_spaced(
    hold: Hold,
    first: Rect,
    at: Nanos,
    client: Size,
    second: Rect,
    later: Nanos,
)
    requires
        hold.released is None,
        hold.having_told(first, at).noted(client).tells(second, later, true),
    ensures
        later >= at + TELL_EVERY,
{
}

/// A refusal is not lifted by the next offer: a client that has answered
/// everything it was told is judged the same while one configure is in flight.
pub proof fn an_offer_does_not_lift_a_refusal(hold: Hold, wanted: Rect, now: Nanos)
    requires
        hold.unanswered == 0,
    ensures
        hold.having_told(wanted, now).is_refused() == hold.is_refused(),
{
}

/// A refusal is lifted by the answer that was asked for.
pub proof fn the_asked_size_lifts_a_refusal(hold: Hold, client: Size)
    requires
        client != hold.since,
        client == hold.asked.size,
    ensures
        !hold.noted(client).is_refused(),
{
}

/// A seam's two panes are pulled by opposite edges: when the line between them
/// moves and their far walls do not, the near pane has its far edge pulled and
/// the far pane its near one.
pub proof fn a_seam_pulls_opposite_edges(wall: int, seam: int, moved: int, far_wall: int)
    requires
        seam != moved,
    ensures
        far_end_moved(wall, seam - wall, wall, moved - wall),
        near_end_moved(seam, far_wall - seam, moved, far_wall - moved),
{
}

/// A pane that was only moved has no edge to anchor against.
pub proof fn a_moved_pane_pulls_no_edge(at: int, to: int, long: int)
    ensures
        !near_end_moved(at, long, to, long),
        !far_end_moved(at, long, to, long),
{
}

/// Nothing ends a drag but letting go: while the pointer is down the hold waits,
/// whatever size the client is at and however long it takes.
pub proof fn a_live_drag_only_waits(hold: Hold, client: Size, now: Nanos)
    requires
        hold.released is None,
    ensures
        hold.noted(client).verdict(client, now) == Settle::Waiting,
{
}

/// Once the pointer has let go, a client that is at the size it was asked for
/// has nothing left to do, whenever that is.
pub proof fn a_client_at_its_size_is_done(hold: Hold, client: Size, now: Nanos)
    requires
        hold.released is Some,
        client.w == hold.asked.size.w,
        client.h == hold.asked.size.h,
    ensures
        hold.noted(client).verdict(client, now) == Settle::Done,
{
}

/// Once the pointer has let go, a client that is not at the size it was asked
/// for is waited for only while it has said nothing since, less than a quarter
/// second long, unless it is that size that it has declined before; else the
/// pane takes the size it is at.
pub proof fn a_client_elsewhere_is_adopted_or_waited_for(hold: Hold, client: Size, now: Nanos)
    requires
        hold.released is Some,
        client != hold.asked.size,
    ensures
        ({
            let settled = hold.noted(client).verdict(client, now);
            let silent = client == hold.since && hold.declined != Some(hold.asked.size);
            let early = now < hold.released->0 + 250_000_000;
            &&& silent && early ==> settled == Settle::Waiting
            &&& !(silent && early) ==> settled == Settle::Adopt(client)
        }),
{
}

/// Seeing a client takes note of where it is, and changes nothing that it was
/// asked for, when, by which edges, or whether the pointer has let go. A client
/// that has not moved has said nothing. One that has answered is owed nothing
/// more, and has declined what it was asked for unless it took it.
pub proof fn what_is_noted_of_a_client(hold: Hold, client: Size)
    ensures
        ({
            let noted = hold.noted(client);
            &&& noted.since == client
            &&& noted.asked == hold.asked
            &&& noted.told == hold.told
            &&& noted.edges == hold.edges
            &&& noted.released == hold.released
            &&& client == hold.since ==> noted.declined == hold.declined && noted.unanswered
                == hold.unanswered
            &&& client != hold.since ==> noted.unanswered == 0
            &&& client != hold.since && client == hold.asked.size ==> noted.declined is None
            &&& client != hold.since && client != hold.asked.size ==> noted.declined == Some(
                hold.asked.size,
            )
        }),
{
}

/// A client is told of a rectangle exactly where it is news to it, and, while a
/// drag is live, where a tenth of a second has passed since it was last told of
/// one: a throttle never keeps back what comes after the pointer has let go.
pub proof fn what_a_client_is_told(hold: Hold, wanted: Rect, now: Nanos)
    ensures
        wanted == hold.asked ==> !hold.tells(wanted, now, true) && !hold.tells(wanted, now, false),
        wanted != hold.asked ==> hold.tells(wanted, now, false),
        wanted != hold.asked && hold.released is Some ==> hold.tells(wanted, now, true),
        wanted != hold.asked && hold.released is None ==> (hold.tells(wanted, now, true) <==> now
            >= hold.told + 100_000_000),
{
}

/// What a client has been told is what it is asked for from then on, and it owes
/// one answer more. Nothing else changes.
pub proof fn what_telling_a_client_changes(hold: Hold, wanted: Rect, now: Nanos)
    ensures
        ({
            let told = hold.having_told(wanted, now);
            &&& told.asked == wanted
            &&& told.told == now
            &&& hold.unanswered < u32::MAX ==> told.unanswered == hold.unanswered + 1
            &&& hold.unanswered == u32::MAX ==> told.unanswered == u32::MAX
            &&& told.edges == hold.edges
            &&& told.since == hold.since
            &&& told.released == hold.released
            &&& told.declined == hold.declined
        }),
{
}

/// Telling a client twice of one rectangle is telling it once.
pub proof fn nothing_is_told_twice(hold: Hold, wanted: Rect, now: Nanos, later: Nanos, throttled: bool)
    ensures
        !hold.having_told(wanted, now).tells(wanted, later, throttled),
{
}

/// A client that took everything it was offered has refused nothing, and one
/// that has declined an offer has refused it where it is further from it, along
/// either axis, than a twentieth of what was asked and than 24 pixels. It is
/// held to what it declined, and to what the drag has reached once it has left
/// two configures unanswered.
pub proof fn what_counts_as_a_refusal(hold: Hold)
    ensures
        hold.declined is None ==> !hold.is_refused(),
        hold.declined is Some ==> ({
            let held_to = if hold.unanswered < 2 {
                hold.declined->0
            } else {
                hold.asked.size
            };
            let off_x = hold.since.w - held_to.w;
            let off_y = hold.since.h - held_to.h;
            let far = |off: int, asked: int|
                {
                    &&& off > 24 || off < -24
                    &&& asked >= 0 ==> off > asked / 20 || off < -(asked / 20)
                    &&& asked < 0 ==> off > (-asked) / 20 || off < -((-asked) / 20)
                };
            hold.is_refused() <==> far(off_x, held_to.w as int) || far(off_y, held_to.h as int)
        }),
{
}

/// A size rounds itself, and being near is a matter of how far apart two sizes
/// are and not of which way.
pub proof fn rounding_is_by_distance(asked: Size, off_x: int, off_y: int, one: Size, other: Size)
    requires
        one.w == asked.w + off_x,
        one.h == asked.h + off_y,
        other.w == asked.w - off_x,
        other.h == asked.h - off_y,
    ensures
        rounding_of(asked, asked),
        rounding_of(asked, one) == rounding_of(asked, other),
{
}

/// Which edges each drag moves: the ones that it is named for and no other, and
/// never two that are opposite.
pub proof fn a_drag_moves_the_edges_it_is_named_for(edges: ResizeEdge)
    ensures
        edges.has_left() <==> edges == ResizeEdge::Left || edges == ResizeEdge::TopLeft || edges
            == ResizeEdge::BottomLeft,
        edges.has_right() <==> edges == ResizeEdge::Right || edges == ResizeEdge::TopRight || edges
            == ResizeEdge::BottomRight,
        edges.has_top() <==> edges == ResizeEdge::Top || edges == ResizeEdge::TopLeft || edges
            == ResizeEdge::TopRight,
        edges.has_bottom() <==> edges == ResizeEdge::Bottom || edges == ResizeEdge::BottomLeft
            || edges == ResizeEdge::BottomRight,
        !(edges.has_left() && edges.has_right()),
        !(edges.has_top() && edges.has_bottom()),
{
}

/// Every name of a fill is a name of that fill alone, and nothing else is a name
/// of one.
pub proof fn a_fill_by_its_name(name: Seq<char>)
    ensures
        Fill::called(name) == Some(Fill::Stretch) <==> name == "stretch"@,
        Fill::called(name) == Some(Fill::Hold) <==> name == "hold"@,
        Fill::called(name) == Some(Fill::Scene) <==> name == "scene"@,
{
    reveal_strlit("stretch");
    reveal_strlit("hold");
    reveal_strlit("scene");
    assert("stretch"@.len() == 7 && "hold"@.len() == 4 && "scene"@.len() == 5);
}

/// A buffer is enlarged to fill its pane unless it is held to its own size: where
/// there is no hold, and under one that stretches.
pub proof fn only_a_stretch_enlarges(fill: Fill)
    ensures
        !Fill::keeps_size(None),
        !Fill::keeps_size(Some(fill)) <==> fill == Fill::Stretch,
{
}

/// A pane is given the size its client has, with a pixel each way at the least.
pub proof fn a_pane_has_at_least_a_pixel(size: Size)
    ensures
        Hold::floored(size).w >= 1,
        Hold::floored(size).h >= 1,
        size.w >= 1 ==> Hold::floored(size).w == size.w,
        size.h >= 1 ==> Hold::floored(size).h == size.h,
        size.w < 1 ==> Hold::floored(size).w == 1,
        size.h < 1 ==> Hold::floored(size).h == 1,
{
}

/// An end of a span is said to have moved where it is elsewhere and the other
/// end is where it was.
pub proof fn one_end_moves_by_itself(from: int, to: int, new_from: int, new_to: int)
    ensures
        near_end_moved(from, to - from, new_from, new_to - new_from) <==> from != new_from && to
            == new_to,
        far_end_moved(from, to - from, new_from, new_to - new_from) <==> from == new_from && to
            != new_to,
{
}

} // verus!
