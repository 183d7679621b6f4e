//! Where the monitors sit: what a configuration says about each connector, and
//! the layout that comes of it for the ones that are plugged in.

use crate::geometry::{is_coordinate, larger, Point, Size};
use crate::monitor::{Align, Scaling, Side, Transform, Wanted};
use vstd::prelude::*;
use vstd::set_lib::{lemma_int_range, lemma_len_subset, set_int_range};

verus! {

/// What a configuration says about one monitor.
#[derive(Clone, Debug)]
pub struct Placement {
    /// The connector, as the hardware names it.
    pub name: String,
    /// Where its top-left corner goes, if that was said outright.
    pub at: Option<Point>,
    /// Which side of which other monitor it goes on, and how the two line up.
    pub beside: Option<(Side, String, Align)>,
    pub mode: Wanted,
    /// Whether its refresh rate may follow what is drawn, if that was said.
    pub vrr: Option<bool>,
    pub transform: Option<Transform>,
    /// Whether it is driven at all.
    pub enabled: bool,
    /// Whether it is the one that a shell's bar and a new window go on.
    pub primary: bool,
    pub scale: Scaling,
}

/// Where every monitor goes.
#[derive(Clone, Debug)]
pub struct Layout {
    /// One position for each monitor, in the order they came in.
    pub at: Vec<Point>,
    /// The monitors that asked to be beside something and could not be.
    pub unresolved: Vec<String>,
}

/// What a configuration says about the monitors.
#[derive(Clone, Debug)]
pub struct Arrangement {
    pub placements: Vec<Placement>,
}

impl Default for Arrangement {
    fn default() -> (arrangement: Self)
        ensures
            arrangement.placements@ == Seq::<Placement>::empty(),
    {
        Arrangement { placements: Vec::new() }
    }
}

/// The monitors that are plugged in: the connector's name and the size of the
/// picture, in logical pixels.
pub type Monitors = Seq<(String, Size)>;

/// Where monitors are, for those that have a place already.
pub type Spots = Seq<Option<(int, int)>>;

/// The first placement for a connector.
pub open spec fn found(placements: Seq<Placement>, name: Seq<char>) -> Option<Placement>
    decreases placements.len(),
{
    if placements.len() == 0 {
        None
    } else if placements.first().name@ == name {
        Some(placements.first())
    } else {
        found(placements.drop_first(), name)
    }
}

/// The first monitor of a name.
pub open spec fn first_named(monitors: Monitors, name: Seq<char>) -> Option<int>
    decreases monitors.len(),
{
    if monitors.len() == 0 {
        None
    } else if monitors.first().0@ == name {
        Some(0)
    } else {
        match first_named(monitors.drop_first(), name) {
            Some(i) => Some(i + 1),
            None => None,
        }
    }
}

/// A monitor that is found has the name, and none before it has.
pub proof fn first_named_is_first(monitors: Monitors, name: Seq<char>)
    ensures
        match first_named(monitors, name) {
            Some(i) => {
                &&& 0 <= i < monitors.len()
                &&& monitors[i].0@ == name
                &&& forall|k: int| 0 <= k < i ==> (#[trigger] monitors[k]).0@ != name
            },
            None => forall|k: int|
                0 <= k < monitors.len() ==> (#[trigger] monitors[k]).0@ != name,
        },
    decreases monitors.len(),
{
    if monitors.len() > 0 && monitors.first().0@ != name {
        let rest = monitors.drop_first();
        first_named_is_first(rest, name);
        assert forall|k: int| 0 < k < monitors.len() implies monitors[k] == rest[k - 1] by {}
    }
}

/// Half of a number, cut short towards zero.
pub open spec fn half(v: int) -> int {
    if v >= 0 {
        v / 2
    } else {
        -((-v) / 2)
    }
}

/// How far something `own` long slides along something `anchor` long to line
/// up with it.
pub open spec fn slide(align: Align, anchor: int, own: int) -> int {
    match align {
        Align::Start => 0,
        Align::Centre => half(anchor - own),
        Align::End => anchor - own,
    }
}

/// Where a monitor of `size` goes on one side of another.
pub open spec fn spot_beside(
    anchor: (int, int),
    anchor_size: Size,
    side: Side,
    align: Align,
    size: Size,
) -> (int, int) {
    let down = anchor.1 + slide(align, anchor_size.h as int, size.h as int);
    let along = anchor.0 + slide(align, anchor_size.w as int, size.w as int);
    match side {
        Side::Right => (anchor.0 + anchor_size.w, down),
        Side::Left => (anchor.0 - size.w, down),
        Side::Below => (along, anchor.1 + anchor_size.h),
        Side::Above => (along, anchor.1 - size.h),
    }
}

/// How far something slides along something else, for any lengths.
fn offset(align: Align, anchor: i32, own: i32) -> (r: i64)
    ensures
        r == slide(align, anchor as int, own as int),
        -0x1_0000_0000 <= r <= 0x1_0000_0000,
{
    let spare: i64 = anchor as i64 - own as i64;
    match align {
        Align::Start => 0,
        Align::Centre => if spare >= 0 {
            spare / 2
        } else {
            -((-spare) / 2)
        },
        Align::End => spare,
    }
}

/// Where a monitor of `size` goes when placed on one side of another.
pub fn beside(anchor_at: Point, anchor_size: Size, side: Side, align: Align, size: Size) -> (at:
    Point)
    requires
        ({
            let spot = spot_beside(
                (anchor_at.x as int, anchor_at.y as int),
                anchor_size,
                side,
                align,
                size,
            );
            is_coordinate(spot.0) && is_coordinate(spot.1)
        }),
    ensures
        (at.x as int, at.y as int) == spot_beside(
            (anchor_at.x as int, anchor_at.y as int),
            anchor_size,
            side,
            align,
            size,
        ),
        side == Side::Right ==> at.x == anchor_at.x + anchor_size.w,
        side == Side::Left ==> at.x + size.w == anchor_at.x,
        side == Side::Below ==> at.y == anchor_at.y + anchor_size.h,
        side == Side::Above ==> at.y + size.h == anchor_at.y,
        side == Side::Below || side == Side::Above ==> match align {
            Align::Start => at.x == anchor_at.x,
            Align::End => at.x + size.w == anchor_at.x + anchor_size.w,
            Align::Centre => -1 <= (2 * at.x + size.w) - (2 * anchor_at.x + anchor_size.w) <= 1,
        },
        side == Side::Right || side == Side::Left ==> match align {
            Align::Start => at.y == anchor_at.y,
            Align::End => at.y + size.h == anchor_at.y + anchor_size.h,
            Align::Centre => -1 <= (2 * at.y + size.h) - (2 * anchor_at.y + anchor_size.h) <= 1,
        },
{
    let (x, y): (i128, i128) = hang(
        (anchor_at.x as i128, anchor_at.y as i128),
        anchor_size,
        side,
        align,
        size,
    );
    Point { x: x as i32, y: y as i32 }
}

/// A number past every place that monitors can end up in.
const WIDE: i128 = 0x10_0000_0000_0000_0000_0000_0000;

/// Where a monitor of `size` goes on one side of another, wherever that is.
fn hang(at: (i128, i128), anchor_size: Size, side: Side, align: Align, size: Size) -> (spot: (
    i128,
    i128,
))
    requires
        within(at.0 as int, WIDE as int),
        within(at.1 as int, WIDE as int),
    ensures
        (spot.0 as int, spot.1 as int) == spot_beside(
            (at.0 as int, at.1 as int),
            anchor_size,
            side,
            align,
            size,
        ),
{
    let (x, y): (i128, i128) = at;
    let down: i128 = offset(align, anchor_size.h, size.h) as i128;
    let along: i128 = offset(align, anchor_size.w, size.w) as i128;
    match side {
        Side::Right => (x + anchor_size.w as i128, y + down),
        Side::Left => (x - size.w as i128, y + down),
        Side::Below => (x + along, y + anchor_size.h as i128),
        Side::Above => (x + along, y - size.h as i128),
    }
}

/// How many monitors have no place yet.
pub open spec fn unplaced(spots: Spots) -> nat
    decreases spots.len(),
{
    if spots.len() == 0 {
        0
    } else {
        unplaced(spots.drop_last()) + if spots.last() is None {
            1nat
        } else {
            0
        }
    }
}

/// Giving a monitor a place leaves one fewer without.
pub proof fn placing_one_leaves_one_fewer(spots: Spots, i: int, spot: (int, int))
    requires
        0 <= i < spots.len(),
        spots[i] is None,
    ensures
        unplaced(spots.update(i, Some(spot))) + 1 == unplaced(spots),
    decreases spots.len(),
{
    let after = spots.update(i, Some(spot));
    if i == spots.len() - 1 {
        assert(after.drop_last() =~= spots.drop_last());
    } else {
        placing_one_leaves_one_fewer(spots.drop_last(), i, spot);
        assert(after.drop_last() =~= spots.drop_last().update(i, Some(spot)));
    }
}

/// Whether every place in `before` is where it was in `after`.
pub open spec fn keeps(before: Spots, after: Spots) -> bool {
    &&& before.len() == after.len()
    &&& forall|i: int| 0 <= i < before.len() && before[i] is Some ==> after[i] == before[i]
}

/// The right edge of the rightmost of the first `n` monitors that have a
/// place.
pub open spec fn edge_to(monitors: Monitors, spots: Spots, n: nat) -> Option<int>
    decreases n,
{
    if n == 0 {
        None
    } else {
        let before = edge_to(monitors, spots, (n - 1) as nat);
        match spots[n - 1] {
            None => before,
            Some((x, _)) => {
                let edge = x + monitors[n - 1].1.w;
                match before {
                    Some(other) => Some(
                        if other >= edge {
                            other
                        } else {
                            edge
                        },
                    ),
                    None => Some(edge),
                }
            },
        }
    }
}

/// The right edge of everything that has a place: the origin where nothing
/// has.
pub open spec fn edge(monitors: Monitors, spots: Spots) -> int {
    match edge_to(monitors, spots, monitors.len()) {
        Some(edge) => edge,
        None => 0,
    }
}

impl Arrangement {
    /// What a monitor was said to be beside.
    pub open spec fn beside_of(self, name: Seq<char>) -> Option<(Side, Seq<char>, Align)> {
        match found(self.placements@, name) {
            Some(placement) => match placement.beside {
                Some((side, anchor, align)) => Some((side, anchor@, align)),
                None => None,
            },
            None => None,
        }
    }

    /// Where a monitor was said to go outright.
    pub open spec fn fixed_at(self, name: Seq<char>) -> Option<(int, int)> {
        match found(self.placements@, name) {
            Some(placement) => match placement.at {
                Some(at) => Some((at.x as int, at.y as int)),
                None => None,
            },
            None => None,
        }
    }

    /// The monitor that monitor `i` was said to be beside, if it is there.
    pub open spec fn anchor_of(self, monitors: Monitors, i: int) -> Option<int> {
        match self.beside_of(monitors[i].0@) {
            Some((_, anchor, _)) => first_named(monitors, anchor),
            None => None,
        }
    }

    /// Whether monitor `i` has no place yet and the one it goes beside has.
    pub open spec fn ready(self, monitors: Monitors, spots: Spots, i: int) -> bool {
        &&& 0 <= i < monitors.len()
        &&& spots[i] is None
        &&& self.anchor_of(monitors, i) is Some
        &&& spots[self.anchor_of(monitors, i)->0] is Some
    }

    /// Where monitor `i` goes beside its anchor.
    pub open spec fn hung(self, monitors: Monitors, spots: Spots, i: int) -> (int, int) {
        let anchor = self.anchor_of(monitors, i)->0;
        let (side, _, align) = self.beside_of(monitors[i].0@)->0;
        spot_beside(spots[anchor]->0, monitors[anchor].1, side, align, monitors[i].1)
    }

    /// The places once every monitor whose anchor has one has been put beside
    /// it, and every monitor whose anchor is one of those, and so on.
    pub open spec fn settled(self, monitors: Monitors, spots: Spots) -> Spots
        decreases unplaced(spots),
    {
        if spots.len() == monitors.len() && exists|i: int| self.ready(monitors, spots, i) {
            let i = choose|i: int| self.ready(monitors, spots, i);
            proof {
                placing_one_leaves_one_fewer(spots, i, self.hung(monitors, spots, i));
            }
            self.settled(monitors, spots.update(i, Some(self.hung(monitors, spots, i))))
        } else {
            spots
        }
    }

    /// Whether another monitor was said to be beside monitor `i`.
    pub open spec fn wanted(self, monitors: Monitors, i: int) -> bool {
        exists|k: int|
            0 <= k < monitors.len() && (#[trigger] self.beside_of(monitors[k].0@) matches Some(
                (_, anchor, _),
            ) && anchor == monitors[i].0@)
    }

    /// The monitor that following what each was said to be beside leads to, `n`
    /// steps from monitor `i`.
    pub open spec fn followed(self, monitors: Monitors, i: int, n: nat) -> Option<int>
        decreases n,
    {
        if n == 0 {
            Some(i)
        } else {
            match self.followed(monitors, i, (n - 1) as nat) {
                Some(k) => self.anchor_of(monitors, k),
                None => None,
            }
        }
    }

    /// Whether following from monitor `i` comes back to it after `n` steps.
    pub open spec fn comes_back(self, monitors: Monitors, i: int, n: nat) -> bool {
        match self.followed(monitors, i, n) {
            Some(k) => monitors[k].0@ == monitors[i].0@,
            None => false,
        }
    }

    /// Whether monitor `i` is in a circle: following from it comes back to it,
    /// within as many steps as there are monitors.
    pub open spec fn in_a_circle(self, monitors: Monitors, i: int) -> bool {
        exists|n: nat| 1 <= n <= monitors.len() && #[trigger] self.comes_back(monitors, i, n)
    }

    /// Whether others wait for monitor `i` and it can be where they begin: it
    /// waits for no monitor that is plugged in, or only for itself, in a
    /// circle. One in the middle of a chain cannot.
    pub open spec fn is_foot(self, monitors: Monitors, i: int) -> bool {
        &&& self.wanted(monitors, i)
        &&& self.anchor_of(monitors, i) is None || self.in_a_circle(monitors, i)
    }

    /// Whether a monitor of a name is plugged in and cannot be beside what it
    /// was said to be: that is not plugged in, or following from the monitor
    /// comes back to it.
    pub open spec fn misplaced(self, monitors: Monitors, name: Seq<char>) -> bool {
        &&& self.beside_of(name) is Some
        &&& exists|i: int|
            {
                &&& 0 <= i < monitors.len()
                &&& (#[trigger] monitors[i]).0@ == name
                &&& self.anchor_of(monitors, i) is None || self.in_a_circle(monitors, i)
            }
    }

    /// Whether monitor `i` is the one to put down where nothing else follows
    /// from what is there: the first without a place that others can begin at,
    /// or else the first without a place.
    pub open spec fn is_seed(self, monitors: Monitors, spots: Spots, i: int) -> bool {
        &&& 0 <= i < monitors.len()
        &&& spots[i] is None
        &&& if self.is_foot(monitors, i) {
            forall|k: int| 0 <= k < i && spots[k] is None ==> !#[trigger] self.is_foot(monitors, k)
        } else {
            &&& forall|k: int| 0 <= k < i ==> spots[k] is Some
            &&& forall|k: int|
                0 <= k < monitors.len() && spots[k] is None ==> !#[trigger] self.is_foot(
                    monitors,
                    k,
                )
        }
    }

    /// The places once every monitor has one, and the names of those that were
    /// said to be beside something and had to be put down elsewhere.
    pub open spec fn laid(self, monitors: Monitors, spots: Spots, lost: Seq<Seq<char>>) -> (
        Spots,
        Seq<Seq<char>>,
    )
        decreases unplaced(spots),
    {
        let now = self.settled(monitors, spots);
        if spots.len() == monitors.len() && exists|i: int| self.is_seed(monitors, now, i) {
            let i = choose|i: int| self.is_seed(monitors, now, i);
            proof {
                self.settling_keeps(monitors, spots);
                placing_one_leaves_one_fewer(now, i, (edge(monitors, now), 0));
            }
            let name = monitors[i].0@;
            self.laid(
                monitors,
                now.update(i, Some((edge(monitors, now), 0))),
                if self.beside_of(name) is Some {
                    lost.push(name)
                } else {
                    lost
                },
            )
        } else {
            (now, lost)
        }
    }

    /// The monitors that were told outright where to go, there.
    pub open spec fn fixed(self, monitors: Monitors) -> Spots {
        Seq::new(monitors.len(), |i: int| self.fixed_at(monitors[i].0@))
    }

    /// Whether placement `p` is the one that says where the monitor of a name goes:
    /// the first for it.
    pub open spec fn is_placed_by(self, name: Seq<char>, p: int) -> bool {
        &&& 0 <= p < self.placements.len()
        &&& self.placements@[p].name@ == name
        &&& forall|q: int| 0 <= q < p ==> (#[trigger] self.placements@[q]).name@ != name
    }

    /// Where every monitor goes, in whole pixels of any size, and who could
    /// not go where it was said to.
    pub open spec fn layout(self, monitors: Monitors) -> (Spots, Seq<Seq<char>>) {
        self.laid(monitors, self.fixed(monitors), Seq::empty())
    }

    /// Settling moves nothing that has a place, and leaves no monitor whose
    /// anchor has a place without one.
    pub proof fn settling_keeps(self, monitors: Monitors, spots: Spots)
        requires
            spots.len() == monitors.len(),
        ensures
            keeps(spots, self.settled(monitors, spots)),
            unplaced(self.settled(monitors, spots)) <= unplaced(spots),
            forall|i: int| !self.ready(monitors, self.settled(monitors, spots), i),
        decreases unplaced(spots),
    {
        if exists|i: int| self.ready(monitors, spots, i) {
            let i = choose|i: int| self.ready(monitors, spots, i);
            let next = spots.update(i, Some(self.hung(monitors, spots, i)));
            placing_one_leaves_one_fewer(spots, i, self.hung(monitors, spots, i));
            self.settling_keeps(monitors, next);
        }
    }

    /// A chain resolves whatever order it is followed in: putting any monitor
    /// that is ready where it goes, first, leads to the same places.
    pub proof fn any_order_settles_the_same(self, monitors: Monitors, spots: Spots, i: int)
        requires
            spots.len() == monitors.len(),
            self.ready(monitors, spots, i),
        ensures
            self.settled(monitors, spots) == self.settled(
                monitors,
                spots.update(i, Some(self.hung(monitors, spots, i))),
            ),
        decreases unplaced(spots),
    {
        let j = choose|j: int| self.ready(monitors, spots, j);
        assert(self.ready(monitors, spots, j));
        let at_i = self.hung(monitors, spots, i);
        let at_j = self.hung(monitors, spots, j);
        if i != j {
            let with_j = spots.update(j, Some(at_j));
            let with_i = spots.update(i, Some(at_i));
            let (_, anchor_of_i, _) = self.beside_of(monitors[i].0@)->0;
            let (_, anchor_of_j, _) = self.beside_of(monitors[j].0@)->0;
            first_named_is_first(monitors, anchor_of_i);
            first_named_is_first(monitors, anchor_of_j);
            placing_one_leaves_one_fewer(spots, j, at_j);
            placing_one_leaves_one_fewer(spots, i, at_i);
            assert(self.ready(monitors, with_j, i));
            assert(self.ready(monitors, with_i, j));
            self.any_order_settles_the_same(monitors, with_j, i);
            self.any_order_settles_the_same(monitors, with_i, j);
            assert(with_j.update(i, Some(at_i)) =~= with_i.update(j, Some(at_j)));
        }
    }

    /// There is at most one seed.
    proof fn one_seed(self, monitors: Monitors, spots: Spots, i: int, j: int)
        requires
            self.is_seed(monitors, spots, i),
            self.is_seed(monitors, spots, j),
        ensures
            i == j,
    {
        if i < j {
            assert(spots[i] is None);
        } else if j < i {
            assert(spots[j] is None);
        }
    }

    pub fn new(placements: Vec<Placement>) -> (arrangement: Self)
        ensures
            arrangement.placements == placements,
    {
        Arrangement { placements }
    }

    /// What was said about a connector, if anything was.
    pub fn find(&self, name: &str) -> (placement: Option<&Placement>)
        ensures
            match placement {
                Some(placement) => found(self.placements@, name@) == Some(*placement),
                None => found(self.placements@, name@) is None,
            },
    {
        let len: usize = self.placements.len();
        let wanted = name.to_owned();
        let mut i: usize = 0;
        assert(self.placements@.subrange(0, len as int) =~= self.placements@);
        while i < len
            invariant
                i <= len == self.placements.len(),
                wanted@ == name@,
                found(self.placements@, name@) == found(
                    self.placements@.subrange(i as int, len as int),
                    name@,
                ),
            decreases len - i,
        {
            let ghost rest = self.placements@.subrange(i as int, len as int);
            assert(rest.drop_first() =~= self.placements@.subrange(i + 1, len as int));
            assert(rest.first() == self.placements@[i as int]);
            if self.placements[i].name == wanted {
                return Some(&self.placements[i]);
            }
            i = i + 1;
        }
        None
    }

    /// Whether a monitor is driven. One nobody mentioned is.
    pub fn enabled(&self, name: &str) -> (r: bool)
        ensures
            r == match found(self.placements@, name@) {
                Some(placement) => placement.enabled,
                None => true,
            },
    {
        match self.find(name) {
            Some(placement) => placement.enabled,
            None => true,
        }
    }

    /// The mode to drive a monitor at.
    pub fn mode(&self, name: &str) -> (r: Wanted)
        ensures
            r == match found(self.placements@, name@) {
                Some(placement) => placement.mode,
                None => Wanted::Best,
            },
    {
        match self.find(name) {
            Some(placement) => placement.mode,
            None => Wanted::Best,
        }
    }

    /// Whether a monitor's refresh rate may follow what is drawn, if that was
    /// said.
    pub fn vrr(&self, name: &str) -> (r: Option<bool>)
        ensures
            r == match found(self.placements@, name@) {
                Some(placement) => placement.vrr,
                None => None,
            },
    {
        match self.find(name) {
            Some(placement) => placement.vrr,
            None => None,
        }
    }

    /// How a monitor is turned, if that was said.
    pub fn transform(&self, name: &str) -> (r: Option<Transform>)
        ensures
            r == match found(self.placements@, name@) {
                Some(placement) => placement.transform,
                None => None,
            },
    {
        match self.find(name) {
            Some(placement) => placement.transform,
            None => None,
        }
    }

    /// How a monitor is scaled.
    pub fn scale(&self, name: &str) -> (r: Scaling)
        ensures
            r == match found(self.placements@, name@) {
                Some(placement) => placement.scale,
                None => Scaling::Auto,
            },
    {
        match self.find(name) {
            Some(placement) => placement.scale,
            None => Scaling::Auto,
        }
    }

    /// The primary monitor: the first that was made it and is not switched
    /// off.
    pub fn primary(&self) -> (name: Option<&str>)
        ensures
            match name {
                Some(name) => exists|i: int|
                    {
                        &&& 0 <= i < self.placements.len()
                        &&& (#[trigger] self.placements@[i]).primary
                        &&& self.placements@[i].enabled
                        &&& self.placements@[i].name@ == name@
                        &&& forall|k: int|
                            0 <= k < i ==> !((#[trigger] self.placements@[k]).primary
                                && self.placements@[k].enabled)
                    },
                None => forall|k: int|
                    0 <= k < self.placements.len() ==> !((#[trigger] self.placements@[k]).primary
                        && self.placements@[k].enabled),
            },
    {
        let mut i: usize = 0;
        while i < self.placements.len()
            invariant
                i <= self.placements.len(),
                forall|k: int|
                    0 <= k < i ==> !((#[trigger] self.placements@[k]).primary
                        && self.placements@[k].enabled),
            decreases self.placements.len() - i,
        {
            let placement = &self.placements[i];
            if placement.primary && placement.enabled {
                assert(self.placements@[i as int].primary);
                return Some(placement.name.as_str());
            }
            i = i + 1;
        }
        None
    }

    /// What a monitor was said to be beside.
    fn anchor(&self, name: &str) -> (r: Option<(Side, &String, Align)>)
        ensures
            match r {
                Some((side, anchor, align)) => self.beside_of(name@) == Some(
                    (side, anchor@, align),
                ),
                None => self.beside_of(name@) is None,
            },
    {
        match self.find(name) {
            None => None,
            Some(placement) => match &placement.beside {
                None => None,
                Some((side, anchor, align)) => Some((*side, anchor, *align)),
            },
        }
    }
}

/// The places of monitors as numbers of any size.
spec fn spots_of(placed: Seq<Option<(i128, i128)>>) -> Spots {
    Seq::new(
        placed.len(),
        |i: int|
            match placed[i] {
                Some((x, y)) => Some((x as int, y as int)),
                None => None,
            },
    )
}

/// Whether every place there is can be said in coordinates.
pub open spec fn fits(spots: Spots) -> bool {
    forall|i: int|
        0 <= i < spots.len() ==> (#[trigger] spots[i] matches Some((x, y)) ==> is_coordinate(x)
            && is_coordinate(y))
}

/// Whether every place there is is short of [`WIDE`].
spec fn in_reach(spots: Spots) -> bool {
    forall|i: int|
        0 <= i < spots.len() ==> (#[trigger] spots[i] matches Some((x, y)) ==> within(
            x,
            WIDE as int,
        ) && within(y, WIDE as int))
}

/// The first monitor of a name.
fn index_of(monitors: &[(String, Size)], name: &String) -> (at: Option<usize>)
    ensures
        match at {
            Some(i) => i < monitors.len() && first_named(monitors@, name@) == Some(i as int),
            None => first_named(monitors@, name@) is None,
        },
{
    proof {
        first_named_is_first(monitors@, name@);
    }
    let mut i: usize = 0;
    while i < monitors.len()
        invariant
            i <= monitors.len(),
            forall|k: int| 0 <= k < i ==> (#[trigger] monitors@[k]).0@ != name@,
            match first_named(monitors@, name@) {
                Some(i) => {
                    &&& 0 <= i < monitors@.len()
                    &&& monitors@[i].0@ == name@
                    &&& forall|k: int| 0 <= k < i ==> (#[trigger] monitors@[k]).0@ != name@
                },
                None => forall|k: int|
                    0 <= k < monitors@.len() ==> (#[trigger] monitors@[k]).0@ != name@,
            },
        decreases monitors.len() - i,
    {
        if monitors[i].0 == *name {
            return Some(i);
        }
        i = i + 1;
    }
    None
}

impl Arrangement {
    /// Put monitors beside their anchors until no anchor that has a place has
    /// one without waiting for it.
    fn resolve(&self, monitors: &[(String, Size)], placed: &mut Vec<Option<(i128, i128)>>)
        requires
            old(placed).len() == monitors.len(),
            in_reach(self.settled(monitors@, spots_of(old(placed)@))),
        ensures
            final(placed).len() == monitors.len(),
            spots_of(final(placed)@) == self.settled(monitors@, spots_of(old(placed)@)),
    {
        let ghost goal = self.settled(monitors@, spots_of(placed@));
        let mut progress = true;
        while progress
            invariant
                placed.len() == monitors.len(),
                in_reach(goal),
                goal == self.settled(monitors@, spots_of(placed@)),
                !progress ==> forall|i: int| !self.ready(monitors@, spots_of(placed@), i),
            decreases
                unplaced(spots_of(placed@)),
                if progress { 1int } else { 0 },
        {
            progress = false;
            let ghost start = unplaced(spots_of(placed@));
            let mut i: usize = 0;
            while i < monitors.len()
                invariant
                    i <= monitors.len() == placed.len(),
                    in_reach(goal),
                    goal == self.settled(monitors@, spots_of(placed@)),
                    !progress ==> forall|k: int|
                        k < i ==> !self.ready(monitors@, spots_of(placed@), k),
                    !progress ==> unplaced(spots_of(placed@)) == start,
                    progress ==> unplaced(spots_of(placed@)) < start,
                decreases monitors.len() - i,
            {
                let ghost before = spots_of(placed@);
                let spot: Option<(i128, i128)> = if placed[i].is_some() {
                    None
                } else {
                    match self.anchor(monitors[i].0.as_str()) {
                        None => None,
                        Some((side, anchor, align)) => match index_of(monitors, anchor) {
                            None => None,
                            Some(anchor) => match placed[anchor] {
                                None => None,
                                Some(at) => {
                                    proof {
                                        assert(before[anchor as int] == Some((at.0 as int, at.1 as int)));
                                        assert(before[i as int] is None);
                                        assert(self.ready(monitors@, before, i as int));
                                        let hung = self.hung(monitors@, before, i as int);
                                        let after = before.update(i as int, Some(hung));
                                        self.any_order_settles_the_same(
                                            monitors@,
                                            before,
                                            i as int,
                                        );
                                        self.settling_keeps(monitors@, after);
                                        self.settling_keeps(monitors@, before);
                                        assert(goal[anchor as int] == before[anchor as int]);
                                        assert(after[i as int] == Some(hung));
                                        assert(goal[i as int] == Some(hung));
                                    }
                                    Some(hang(at, monitors[anchor].1, side, align, monitors[i].1))
                                },
                            },
                        },
                    }
                };
                if let Some(at) = spot {
                    let ghost hung = (at.0 as int, at.1 as int);
                    placed.set(i, Some(at));
                    progress = true;
                    proof {
                        assert(spots_of(placed@) =~= before.update(i as int, Some(hung)));
                        placing_one_leaves_one_fewer(before, i as int, hung);
                    }
                } else {
                    assert(!self.ready(monitors@, before, i as int));
                }
                i = i + 1;
            }
        }
    }

    /// Whether another monitor was said to be beside monitor `i`.
    fn is_wanted(&self, monitors: &[(String, Size)], i: usize) -> (r: bool)
        requires
            i < monitors.len(),
        ensures
            r == self.wanted(monitors@, i as int),
    {
        let mut k: usize = 0;
        while k < monitors.len()
            invariant
                i < monitors.len(),
                k <= monitors.len(),
                forall|j: int|
                    0 <= j < k ==> !(#[trigger] self.beside_of(monitors@[j].0@) matches Some(
                        (_, anchor, _),
                    ) && anchor == monitors@[i as int].0@),
            decreases monitors.len() - k,
        {
            if let Some((_, anchor, _)) = self.anchor(monitors[k].0.as_str()) {
                if *anchor == monitors[i].0 {
                    assert(self.beside_of(monitors@[k as int].0@) is Some);
                    return true;
                }
            }
            k = k + 1;
        }
        false
    }

    /// The monitor that monitor `i` was said to be beside, if it is there.
    fn anchor_index(&self, monitors: &[(String, Size)], i: usize) -> (r: Option<usize>)
        requires
            i < monitors.len(),
        ensures
            match r {
                Some(k) => k < monitors.len() && self.anchor_of(monitors@, i as int) == Some(
                    k as int,
                ),
                None => self.anchor_of(monitors@, i as int) is None,
            },
    {
        match self.anchor(monitors[i].0.as_str()) {
            None => None,
            Some((_, anchor, _)) => index_of(monitors, anchor),
        }
    }

    /// Following that has ended does not go on.
    proof fn ended_stays_ended(self, monitors: Monitors, i: int, n: nat, m: nat)
        requires
            self.followed(monitors, i, n) is None,
            n <= m,
        ensures
            self.followed(monitors, i, m) is None,
        decreases m,
    {
        if n < m {
            self.ended_stays_ended(monitors, i, n, (m - 1) as nat);
        }
    }

    /// Whether monitor `i` is in a circle.
    fn circles(&self, monitors: &[(String, Size)], i: usize) -> (r: bool)
        requires
            i < monitors.len(),
        ensures
            r == self.in_a_circle(monitors@, i as int),
    {
        let mut at: usize = i;
        let mut n: usize = 0;
        while n < monitors.len()
            invariant
                i < monitors.len(),
                at < monitors.len(),
                n <= monitors.len(),
                self.followed(monitors@, i as int, n as nat) == Some(at as int),
                forall|m: nat|
                    1 <= m <= n ==> !#[trigger] self.comes_back(monitors@, i as int, m),
            decreases monitors.len() - n,
        {
            let next: usize = match self.anchor_index(monitors, at) {
                Some(next) => next,
                None => {
                    assert forall|m: nat| 1 <= m <= monitors.len() implies !#[trigger]
                        self.comes_back(monitors@, i as int, m) by {
                        if m > n {
                            self.ended_stays_ended(monitors@, i as int, (n + 1) as nat, m);
                        }
                    }
                    return false;
                },
            };
            at = next;
            n = n + 1;
            if monitors[at].0 == monitors[i].0 {
                assert(self.comes_back(monitors@, i as int, n as nat));
                return true;
            }
        }
        false
    }

    /// Whether others wait for monitor `i` and it can be where they begin.
    fn stands(&self, monitors: &[(String, Size)], i: usize) -> (r: bool)
        requires
            i < monitors.len(),
        ensures
            r == self.is_foot(monitors@, i as int),
    {
        self.is_wanted(monitors, i) && (self.anchor_index(monitors, i).is_none() || self.circles(
            monitors,
            i,
        ))
    }

    /// The monitor to put down where nothing else follows from what is there.
    fn seed(&self, monitors: &[(String, Size)], placed: &Vec<Option<(i128, i128)>>) -> (seed: Option<
        usize,
    >)
        requires
            placed.len() == monitors.len(),
        ensures
            match seed {
                Some(i) => self.is_seed(monitors@, spots_of(placed@), i as int),
                None => forall|i: int| 0 <= i < placed.len() ==> placed@[i] is Some,
            },
    {
        let ghost spots = spots_of(placed@);
        let mut first: Option<usize> = None;
        let mut i: usize = 0;
        while i < monitors.len()
            invariant
                i <= monitors.len() == placed.len(),
                spots == spots_of(placed@),
                forall|k: int| 0 <= k < i && spots[k] is None ==> !#[trigger] self.is_foot(
                    monitors@,
                    k,
                ),
                match first {
                    Some(f) => {
                        &&& f < i
                        &&& spots[f as int] is None
                        &&& forall|k: int| 0 <= k < f ==> spots[k] is Some
                    },
                    None => forall|k: int| 0 <= k < i ==> spots[k] is Some,
                },
            decreases monitors.len() - i,
        {
            if placed[i].is_none() {
                if self.stands(monitors, i) {
                    return Some(i);
                }
                if first.is_none() {
                    first = Some(i);
                }
            }
            i = i + 1;
        }
        assert(first is None ==> forall|k: int| 0 <= k < placed.len() ==> (spots[k] is Some
            ==> #[trigger] placed@[k] is Some));
        first
    }

    /// Where every monitor goes, in numbers wide enough for wherever that is,
    /// and who could not go where it was said to.
    fn lay(&self, monitors: &[(String, Size)]) -> (r: (Vec<(i128, i128)>, Vec<String>))
        ensures
            r.0.len() == monitors.len(),
            self.layout(monitors@).0.len() == monitors.len(),
            forall|i: int|
                0 <= i < monitors.len() ==> self.layout(monitors@).0[i] == Some(
                    ((#[trigger] r.0@[i]).0 as int, r.0@[i].1 as int),
                ),
            names_of(r.1@) == self.layout(monitors@).1,
    {
        let mut placed: Vec<Option<(i128, i128)>> = Vec::new();
        let mut unresolved: Vec<String> = Vec::new();
        let mut i: usize = 0;
        while i < monitors.len()
            invariant
                i <= monitors.len(),
                placed.len() == i,
                forall|k: int|
                    0 <= k < i ==> spots_of(placed@)[k] == self.fixed_at(
                        #[trigger] monitors@[k].0@,
                    ),
            decreases monitors.len() - i,
        {
            let ghost before = placed@;
            placed.push(
                match self.find(monitors[i].0.as_str()) {
                    Some(placement) => match placement.at {
                        Some(at) => Some((at.x as i128, at.y as i128)),
                        None => None,
                    },
                    None => None,
                },
            );
            assert forall|k: int| 0 <= k < i + 1 implies spots_of(placed@)[k] == self.fixed_at(
                #[trigger] monitors@[k].0@,
            ) by {
                if k < i {
                    assert(spots_of(before)[k] == self.fixed_at(monitors@[k].0@));
                }
            }
            i = i + 1;
        }
        proof {
            assert(spots_of(placed@) =~= self.fixed(monitors@));
            assert(names_of(unresolved@) =~= Seq::<Seq<char>>::empty());
        }
        let ghost goal = self.layout(monitors@);
        proof {
            self.every_layout_is_in_reach(monitors@);
        }
        let mut done = false;
        while !done
            invariant
                placed.len() == monitors.len(),
                in_reach(goal.0),
                !done ==> goal == self.laid(monitors@, spots_of(placed@), names_of(unresolved@)),
                done ==> goal == (spots_of(placed@), names_of(unresolved@)) && forall|k: int|
                    0 <= k < placed.len() ==> placed@[k] is Some,
            decreases
                unplaced(spots_of(placed@)),
                if done { 0int } else { 1 },
        {
            let ghost start = spots_of(placed@);
            let ghost lost = names_of(unresolved@);
            let ghost now = self.settled(monitors@, start);
            proof {
                self.laying_keeps(monitors@, start, lost);
                self.settling_keeps(monitors@, start);
                kept_places_are_in_reach(now, goal.0);
            }
            self.resolve(monitors, &mut placed);
            match self.seed(monitors, &placed) {
                None => {
                    proof {
                        if exists|i: int| self.is_seed(monitors@, now, i) {
                            let i = choose|i: int| self.is_seed(monitors@, now, i);
                            assert(spots_of(placed@)[i] is None);
                            assert(placed@[i] is Some);
                        }
                    }
                    done = true;
                },
                Some(seed) => {
                    let ghost chosen = choose|i: int| self.is_seed(monitors@, now, i);
                    let ghost edged = now.update(seed as int, Some((edge(monitors@, now), 0int)));
                    let ghost name = monitors@[seed as int].0@;
                    let ghost more = if self.beside_of(name) is Some {
                        lost.push(name)
                    } else {
                        lost
                    };
                    proof {
                        assert(self.is_seed(monitors@, now, seed as int));
                        self.one_seed(monitors@, now, seed as int, chosen);
                        assert(goal == self.laid(monitors@, edged, more));
                        self.laying_keeps(monitors@, edged, more);
                        assert(edged[seed as int] is Some);
                        assert(goal.0[seed as int] == edged[seed as int]);
                        placing_one_leaves_one_fewer(now, seed as int, (edge(monitors@, now), 0));
                    }
                    let at: i128 = right_edge(monitors, &placed);
                    placed.set(seed, Some((at, 0)));
                    if self.anchor(monitors[seed].0.as_str()).is_some() {
                        unresolved.push(monitors[seed].0.clone());
                    }
                    proof {
                        assert(spots_of(placed@) =~= edged);
                        assert(names_of(unresolved@) =~= more);
                    }
                },
            }
        }
        let mut at: Vec<(i128, i128)> = Vec::new();
        let mut k: usize = 0;
        while k < placed.len()
            invariant
                k <= placed.len() == monitors.len(),
                at.len() == k,
                goal.0 == spots_of(placed@),
                forall|j: int| 0 <= j < placed.len() ==> placed@[j] is Some,
                forall|j: int|
                    0 <= j < k ==> goal.0[j] == Some(
                        ((#[trigger] at@[j]).0 as int, at@[j].1 as int),
                    ),
            decreases placed.len() - k,
        {
            let spot: (i128, i128) = match placed[k] {
                Some(spot) => spot,
                None => (0, 0),
            };
            assert(placed@[k as int] is Some);
            at.push(spot);
            k = k + 1;
        }
        (at, unresolved)
    }

    /// Where every monitor goes.
    ///
    /// One that was told outright where to go goes there. One that was said to
    /// be beside another goes beside it once that one has a place, in whatever
    /// order the two come. Where nothing more follows, one monitor goes to the
    /// right of everything that has a place, and the rest follow from it: the
    /// first that others wait for and that does not wait itself, but for a
    /// monitor that is not there or, in a circle, for itself; or else simply
    /// the first. A chain is so begun at its foot and not in its middle, and
    /// the only monitors reported are those that were said to be beside one
    /// that is not there, and one out of each circle.
    ///
    /// All of that has to be somewhere in the coordinates, which it is wherever
    /// [`Arrangement::has_room`] says so.
    pub fn place(&self, monitors: &[(String, Size)]) -> (layout: Layout)
        requires
            fits(self.layout(monitors@).0),
        ensures
            layout.at.len() == monitors.len(),
            forall|i: int|
                0 <= i < monitors.len() ==> self.layout(monitors@).0[i] == Some(
                    ((#[trigger] layout.at@[i]).x as int, layout.at@[i].y as int),
                ),
            names_of(layout.unresolved@) == self.layout(monitors@).1,
            forall|i: int, p: int|
                #![trigger layout.at@[i], self.placements@[p]]
                0 <= i < monitors.len() && self.is_placed_by(monitors@[i].0@, p)
                    && self.placements@[p].at is Some ==> layout.at@[i]
                    == self.placements@[p].at->0,
            forall|i: int, k: int, p: int|
                #![trigger layout.at@[i], layout.at@[k], self.placements@[p]]
                {
                    &&& 0 <= i < monitors.len()
                    &&& 0 <= k < monitors.len()
                    &&& self.is_placed_by(monitors@[i].0@, p)
                    &&& self.placements@[p].at is None
                    &&& self.placements@[p].beside is Some
                    &&& self.placements@[p].beside->Some_0.1@ == monitors@[k].0@
                    &&& forall|q: int|
                        0 <= q < k ==> (#[trigger] monitors@[q]).0@ != monitors@[k].0@
                    &&& !self.in_a_circle(monitors@, i)
                } ==> {
                    let (side, _, align) = self.placements@[p].beside->0;
                    let at = layout.at@[i];
                    let anchor = layout.at@[k];
                    let size = monitors@[i].1;
                    let its = monitors@[k].1;
                    &&& side == Side::Right ==> at.x == anchor.x + its.w
                    &&& side == Side::Left ==> at.x + size.w == anchor.x
                    &&& side == Side::Below ==> at.y == anchor.y + its.h
                    &&& side == Side::Above ==> at.y + size.h == anchor.y
                    &&& side == Side::Below || side == Side::Above ==> match align {
                        Align::Start => at.x == anchor.x,
                        Align::End => at.x + size.w == anchor.x + its.w,
                        Align::Centre => -1 <= (2 * at.x + size.w) - (2 * anchor.x + its.w) <= 1,
                    }
                    &&& side == Side::Right || side == Side::Left ==> match align {
                        Align::Start => at.y == anchor.y,
                        Align::End => at.y + size.h == anchor.y + its.h,
                        Align::Centre => -1 <= (2 * at.y + size.h) - (2 * anchor.y + its.h) <= 1,
                    }
                },
    {
        let (spots, unresolved) = self.lay(monitors);
        let ghost goal = self.layout(monitors@).0;
        let mut at: Vec<Point> = Vec::new();
        let mut k: usize = 0;
        while k < spots.len()
            invariant
                k <= spots.len() == monitors.len() == goal.len(),
                at.len() == k,
                fits(goal),
                forall|j: int|
                    0 <= j < spots.len() ==> goal[j] == Some(
                        ((#[trigger] spots@[j]).0 as int, spots@[j].1 as int),
                    ),
                forall|j: int|
                    0 <= j < k ==> goal[j] == Some(
                        ((#[trigger] at@[j]).x as int, at@[j].y as int),
                    ),
            decreases spots.len() - k,
        {
            let (x, y): (i128, i128) = spots[k];
            assert(goal[k as int] == Some((x as int, y as int)));
            at.push(Point { x: x as i32, y: y as i32 });
            k = k + 1;
        }
        proof {
            assert forall|i: int, p: int|
                #![trigger at@[i], self.placements@[p]]
                0 <= i < monitors.len() && self.is_placed_by(monitors@[i].0@, p)
                    && self.placements@[p].at is Some implies at@[i]
                == self.placements@[p].at->0 by {
                self.a_monitor_is_where_it_was_put(monitors@, i, p);
            }
            assert forall|i: int, k: int, p: int|
                #![trigger at@[i], at@[k], self.placements@[p]]
                {
                    &&& 0 <= i < monitors.len()
                    &&& 0 <= k < monitors.len()
                    &&& self.is_placed_by(monitors@[i].0@, p)
                    &&& self.placements@[p].at is None
                    &&& self.placements@[p].beside is Some
                    &&& self.placements@[p].beside->Some_0.1@ == monitors@[k].0@
                    &&& forall|q: int|
                        0 <= q < k ==> (#[trigger] monitors@[q]).0@ != monitors@[k].0@
                    &&& !self.in_a_circle(monitors@, i)
                } implies {
                let (side, _, align) = self.placements@[p].beside->0;
                let own = at@[i];
                let anchor = at@[k];
                let size = monitors@[i].1;
                let its = monitors@[k].1;
                &&& side == Side::Right ==> own.x == anchor.x + its.w
                &&& side == Side::Left ==> own.x + size.w == anchor.x
                &&& side == Side::Below ==> own.y == anchor.y + its.h
                &&& side == Side::Above ==> own.y + size.h == anchor.y
                &&& side == Side::Below || side == Side::Above ==> match align {
                    Align::Start => own.x == anchor.x,
                    Align::End => own.x + size.w == anchor.x + its.w,
                    Align::Centre => -1 <= (2 * own.x + size.w) - (2 * anchor.x + its.w) <= 1,
                }
                &&& side == Side::Right || side == Side::Left ==> match align {
                    Align::Start => own.y == anchor.y,
                    Align::End => own.y + size.h == anchor.y + its.h,
                    Align::Centre => -1 <= (2 * own.y + size.h) - (2 * anchor.y + its.h) <= 1,
                }
            } by {
                self.a_monitor_is_laid_against_its_anchor(monitors@, i, k, p);
                assert(goal[i] == Some((at@[i].x as int, at@[i].y as int)));
                assert(goal[k] == Some((at@[k].x as int, at@[k].y as int)));
            }
        }
        Layout { at, unresolved }
    }

    /// Whether every monitor ends up somewhere in the coordinates, so that
    /// [`Arrangement::place`] can be asked.
    pub fn has_room(&self, monitors: &[(String, Size)]) -> (r: bool)
        ensures
            r == fits(self.layout(monitors@).0),
    {
        let (spots, _) = self.lay(monitors);
        let ghost goal = self.layout(monitors@).0;
        let mut k: usize = 0;
        while k < spots.len()
            invariant
                k <= spots.len() == monitors.len() == goal.len(),
                forall|j: int|
                    0 <= j < spots.len() ==> goal[j] == Some(
                        ((#[trigger] spots@[j]).0 as int, spots@[j].1 as int),
                    ),
                goal == self.layout(monitors@).0,
                forall|j: int|
                    0 <= j < k ==> (#[trigger] goal[j] matches Some((x, y)) ==> is_coordinate(x)
                        && is_coordinate(y)),
            decreases spots.len() - k,
        {
            let (x, y): (i128, i128) = spots[k];
            assert(goal[k as int] == Some((x as int, y as int)));
            let least: i128 = i32::MIN as i128;
            let most: i128 = i32::MAX as i128;
            if x < least || x > most || y < least || y > most {
                return false;
            }
            k = k + 1;
        }
        true
    }

    /// Laying out moves nothing that has a place.
    pub proof fn laying_keeps(self, monitors: Monitors, spots: Spots, lost: Seq<Seq<char>>)
        requires
            spots.len() == monitors.len(),
        ensures
            keeps(spots, self.laid(monitors, spots, lost).0),
            keeps(self.settled(monitors, spots), self.laid(monitors, spots, lost).0),
        decreases unplaced(spots),
    {
        let now = self.settled(monitors, spots);
        self.settling_keeps(monitors, spots);
        if exists|i: int| self.is_seed(monitors, now, i) {
            let i = choose|i: int| self.is_seed(monitors, now, i);
            let spot = (edge(monitors, now), 0int);
            placing_one_leaves_one_fewer(now, i, spot);
            let name = monitors[i].0@;
            self.laying_keeps(
                monitors,
                now.update(i, Some(spot)),
                if self.beside_of(name) is Some {
                    lost.push(name)
                } else {
                    lost
                },
            );
        }
    }
}

/// The characters of some names.
pub open spec fn names_of(names: Seq<String>) -> Seq<Seq<char>> {
    Seq::new(names.len(), |i: int| names[i]@)
}

/// What is in reach still is where it is kept.
proof fn kept_places_are_in_reach(before: Spots, after: Spots)
    requires
        keeps(before, after),
        in_reach(after),
    ensures
        in_reach(before),
{
    assert forall|i: int| 0 <= i < before.len() implies (#[trigger] before[i] matches Some((x, y))
        ==> within(x, WIDE as int) && within(y, WIDE as int)) by {
        if before[i] is Some {
            assert(after[i] == before[i]);
        }
    }
}

/// The right edge of everything that has a place.
fn right_edge(monitors: &[(String, Size)], placed: &Vec<Option<(i128, i128)>>) -> (r: i128)
    requires
        placed.len() == monitors.len(),
        in_reach(spots_of(placed@)),
    ensures
        r == edge(monitors@, spots_of(placed@)),
{
    let ghost spots = spots_of(placed@);
    let mut furthest: Option<i128> = None;
    let mut i: usize = 0;
    while i < monitors.len()
        invariant
            i <= monitors.len() == placed.len(),
            spots == spots_of(placed@),
            in_reach(spots),
            match furthest {
                Some(edge) => edge_to(monitors@, spots, i as nat) == Some(edge as int),
                None => edge_to(monitors@, spots, i as nat) is None,
            },
        decreases monitors.len() - i,
    {
        if let Some(at) = placed[i] {
            assert(spots[i as int] == Some((at.0 as int, at.1 as int)));
            let edge: i128 = at.0 + monitors[i].1.w as i128;
            furthest = match furthest {
                Some(other) => if other >= edge {
                    Some(other)
                } else {
                    Some(edge)
                },
                None => Some(edge),
            };
        }
        i = i + 1;
    }
    match furthest {
        Some(edge) => edge,
        None => 0,
    }
}

/// Whether a monitor of a name is plugged in.
pub open spec fn plugged(monitors: Monitors, name: Seq<char>) -> bool {
    exists|i: int| 0 <= i < monitors.len() && (#[trigger] monitors[i]).0@ == name
}

/// The names in some placements that no monitor answers to, in their order.
pub open spec fn strangers(placements: Seq<Placement>, monitors: Monitors) -> Seq<Seq<char>>
    decreases placements.len(),
{
    if placements.len() == 0 {
        Seq::empty()
    } else {
        let before = strangers(placements.drop_last(), monitors);
        let name = placements.last().name@;
        if plugged(monitors, name) {
            before
        } else {
            before.push(name)
        }
    }
}

/// Of more numbers than there are to choose from, two are the same.
proof fn something_comes_twice(numbers: Seq<int>, len: int) -> (r: (int, int))
    requires
        0 <= len < numbers.len(),
        forall|n: int| 0 <= n < numbers.len() ==> 0 <= #[trigger] numbers[n] < len,
    ensures
        0 <= r.0 < r.1 < numbers.len(),
        numbers[r.0] == numbers[r.1],
{
    if numbers.no_duplicates() {
        numbers.unique_seq_to_set();
        lemma_int_range(0, len);
        assert forall|v: int| numbers.to_set().contains(v) implies set_int_range(0, len).contains(
            v,
        ) by {
            let n = choose|n: int| 0 <= n < numbers.len() && numbers[n] == v;
            assert(0 <= numbers[n] < len);
        }
        lemma_len_subset(numbers.to_set(), set_int_range(0, len));
    }
    let (i, j) = choose|i: int, j: int|
        0 <= i < numbers.len() && 0 <= j < numbers.len() && i != j && numbers[i] == numbers[j];
    if i < j {
        (i, j)
    } else {
        (j, i)
    }
}

impl Arrangement {
    /// Configured names that no connector answered to.
    pub fn unmatched(&self, monitors: &[(String, Size)]) -> (names: Vec<&str>)
        ensures
            names.len() == strangers(self.placements@, monitors@).len(),
            forall|i: int|
                0 <= i < names.len() ==> (#[trigger] names@[i])@ == strangers(
                    self.placements@,
                    monitors@,
                )[i],
    {
        let mut names: Vec<&str> = Vec::new();
        let mut i: usize = 0;
        assert(self.placements@.subrange(0, 0) =~= Seq::<Placement>::empty());
        while i < self.placements.len()
            invariant
                i <= self.placements.len(),
                ({
                    let all = strangers(self.placements@.subrange(0, i as int), monitors@);
                    &&& names.len() == all.len()
                    &&& forall|k: int| 0 <= k < names.len() ==> (#[trigger] names@[k])@ == all[k]
                }),
            decreases self.placements.len() - i,
        {
            proof {
                first_named_is_first(monitors@, self.placements@[i as int].name@);
                let upto = self.placements@.subrange(0, i + 1);
                assert(upto.drop_last() =~= self.placements@.subrange(0, i as int));
                assert(upto.last() == self.placements@[i as int]);
            }
            if index_of(monitors, &self.placements[i].name).is_none() {
                names.push(self.placements[i].name.as_str());
            }
            i = i + 1;
        }
        assert(self.placements@.subrange(0, self.placements.len() as int) =~= self.placements@);
        names
    }

    proof fn least_without_a_place(self, monitors: Monitors, spots: Spots, i: int) -> (least: int)
        requires
            spots.len() == monitors.len(),
            0 <= i < spots.len(),
            spots[i] is None,
        ensures
            0 <= least <= i,
            spots[least] is None,
            forall|k: int| 0 <= k < least ==> spots[k] is Some,
        decreases i,
    {
        if exists|k: int| 0 <= k < i && spots[k] is None {
            let k = choose|k: int| 0 <= k < i && spots[k] is None;
            self.least_without_a_place(monitors, spots, k)
        } else {
            i
        }
    }

    proof fn least_foot(self, monitors: Monitors, spots: Spots, i: int) -> (least: int)
        requires
            spots.len() == monitors.len(),
            0 <= i < spots.len(),
            spots[i] is None,
            self.is_foot(monitors, i),
        ensures
            0 <= least <= i,
            spots[least] is None,
            self.is_foot(monitors, least),
            forall|k: int| 0 <= k < least && spots[k] is None ==> !#[trigger] self.is_foot(
                monitors,
                k,
            ),
        decreases i,
    {
        if exists|k: int| 0 <= k < i && spots[k] is None && #[trigger] self.is_foot(monitors, k) {
            let k = choose|k: int|
                0 <= k < i && spots[k] is None && #[trigger] self.is_foot(monitors, k);
            self.least_foot(monitors, spots, k)
        } else {
            i
        }
    }

    /// While a monitor has no place there is one to put down.
    proof fn there_is_a_seed(self, monitors: Monitors, spots: Spots, i: int)
        requires
            spots.len() == monitors.len(),
            0 <= i < spots.len(),
            spots[i] is None,
        ensures
            exists|k: int| self.is_seed(monitors, spots, k),
    {
        if exists|k: int|
            0 <= k < monitors.len() && spots[k] is None && #[trigger] self.is_foot(monitors, k) {
            let k = choose|k: int|
                0 <= k < monitors.len() && spots[k] is None && #[trigger] self.is_foot(monitors, k);
            let least = self.least_foot(monitors, spots, k);
            assert(self.is_seed(monitors, spots, least));
        } else {
            let least = self.least_without_a_place(monitors, spots, i);
            assert(self.is_seed(monitors, spots, least));
        }
    }

    /// Following on from where following has led.
    proof fn following_goes_on(self, monitors: Monitors, i: int, m: nat, n: nat)
        requires
            self.followed(monitors, i, m) is Some,
        ensures
            self.followed(monitors, self.followed(monitors, i, m)->0, n) == self.followed(
                monitors,
                i,
                m + n,
            ),
        decreases n,
    {
        if n > 0 {
            self.following_goes_on(monitors, i, m, (n - 1) as nat);
        }
    }

    /// Where nothing is ready and nothing others can begin at is left, following
    /// from a monitor that waits for another goes on for ever, over monitors
    /// without a place that others wait for.
    proof fn following_never_ends(self, monitors: Monitors, spots: Spots, i: int, n: nat)
        requires
            spots.len() == monitors.len(),
            0 <= i < monitors.len(),
            spots[i] is None,
            self.anchor_of(monitors, i) is Some,
            forall|k: int| !self.ready(monitors, spots, k),
            forall|k: int|
                0 <= k < monitors.len() && spots[k] is None ==> !#[trigger] self.is_foot(
                    monitors,
                    k,
                ),
        ensures
            self.followed(monitors, i, n) matches Some(k) && 0 <= k < monitors.len()
                && spots[k] is None && self.anchor_of(monitors, k) is Some && (n >= 1
                ==> self.wanted(monitors, k)),
        decreases n,
    {
        if n > 0 {
            self.following_never_ends(monitors, spots, i, (n - 1) as nat);
            let before = self.followed(monitors, i, (n - 1) as nat)->0;
            let k = self.anchor_of(monitors, before)->0;
            let (_, name, _) = self.beside_of(monitors[before].0@)->0;
            first_named_is_first(monitors, name);
            assert(!self.ready(monitors, spots, before));
            assert(self.beside_of(monitors[before].0@) is Some);
            assert(self.wanted(monitors, k));
            assert(!self.is_foot(monitors, k));
        }
    }

    /// Where nothing is ready and nothing others can begin at is left, a monitor
    /// without a place waits for none that is plugged in.
    proof fn what_is_left_waits_for_nothing(self, monitors: Monitors, spots: Spots, i: int)
        requires
            spots.len() == monitors.len(),
            0 <= i < monitors.len(),
            spots[i] is None,
            forall|k: int| !self.ready(monitors, spots, k),
            forall|k: int|
                0 <= k < monitors.len() && spots[k] is None ==> !#[trigger] self.is_foot(
                    monitors,
                    k,
                ),
        ensures
            self.anchor_of(monitors, i) is None,
    {
        if self.anchor_of(monitors, i) is Some {
            let len = monitors.len() as int;
            let steps = Seq::new((len + 1) as nat, |n: int| self.followed(monitors, i, n as nat)->0);
            assert forall|n: int| 0 <= n < steps.len() implies 0 <= #[trigger] steps[n] < len by {
                self.following_never_ends(monitors, spots, i, n as nat);
            }
            let (m, n) = something_comes_twice(steps, len);
            let p = steps[m];
            self.following_never_ends(monitors, spots, i, m as nat);
            self.following_never_ends(monitors, spots, i, n as nat);
            self.following_goes_on(monitors, i, m as nat, (n - m) as nat);
            assert(self.comes_back(monitors, p, (n - m) as nat));
            assert(self.in_a_circle(monitors, p));
            assert(self.is_foot(monitors, p));
        }
    }

    /// Whether monitor `i`, where it has a place, has it for a reason: it was
    /// told it outright, or it was said to be beside nothing, or it is beside
    /// its anchor, or it is reported.
    pub open spec fn accounted(
        self,
        monitors: Monitors,
        spots: Spots,
        lost: Seq<Seq<char>>,
        i: int,
    ) -> bool {
        spots[i] is Some ==> {
            ||| self.fixed_at(monitors[i].0@) is Some
            ||| self.beside_of(monitors[i].0@) is None
            ||| lost.contains(monitors[i].0@)
            ||| {
                &&& self.anchor_of(monitors, i) is Some
                &&& spots[self.anchor_of(monitors, i)->0] is Some
                &&& spots[i] == Some(self.hung(monitors, spots, i))
            }
        }
    }

    proof fn accounted_stays(
        self,
        monitors: Monitors,
        spots: Spots,
        after: Spots,
        lost: Seq<Seq<char>>,
        more: Seq<Seq<char>>,
        i: int,
    )
        requires
            spots.len() == monitors.len(),
            0 <= i < monitors.len(),
            keeps(spots, after),
            spots[i] is Some,
            self.accounted(monitors, spots, lost, i),
            forall|name: Seq<char>| lost.contains(name) ==> more.contains(name),
        ensures
            self.accounted(monitors, after, more, i),
    {
        if self.anchor_of(monitors, i) is Some {
            let (_, anchor, _) = self.beside_of(monitors[i].0@)->0;
            first_named_is_first(monitors, anchor);
        }
    }

    proof fn settling_accounts(self, monitors: Monitors, spots: Spots, lost: Seq<Seq<char>>)
        requires
            spots.len() == monitors.len(),
            forall|i: int|
                0 <= i < monitors.len() ==> #[trigger] self.accounted(monitors, spots, lost, i),
        ensures
            forall|i: int|
                0 <= i < monitors.len() ==> #[trigger] self.accounted(
                    monitors,
                    self.settled(monitors, spots),
                    lost,
                    i,
                ),
        decreases unplaced(spots),
    {
        if exists|i: int| self.ready(monitors, spots, i) {
            let i = choose|i: int| self.ready(monitors, spots, i);
            let at = self.hung(monitors, spots, i);
            let next = spots.update(i, Some(at));
            let (_, anchor, _) = self.beside_of(monitors[i].0@)->0;
            first_named_is_first(monitors, anchor);
            placing_one_leaves_one_fewer(spots, i, at);
            assert forall|k: int| 0 <= k < monitors.len() implies #[trigger] self.accounted(
                monitors,
                next,
                lost,
                k,
            ) by {
                assert(self.accounted(monitors, spots, lost, k));
                if k != i && spots[k] is Some {
                    self.accounted_stays(monitors, spots, next, lost, lost, k);
                }
            }
            self.settling_accounts(monitors, next, lost);
            assert(self.settled(monitors, spots) == self.settled(monitors, next));
        } else {
            assert(self.settled(monitors, spots) == spots);
        }
    }

    proof fn laying_accounts(self, monitors: Monitors, spots: Spots, lost: Seq<Seq<char>>)
        requires
            spots.len() == monitors.len(),
            forall|i: int|
                0 <= i < monitors.len() ==> #[trigger] self.accounted(monitors, spots, lost, i),
            forall|i: int|
                0 <= i < lost.len() ==> self.misplaced(monitors, #[trigger] lost[i]),
        ensures
            ({
                let (done, reported) = self.laid(monitors, spots, lost);
                &&& done.len() == monitors.len()
                &&& forall|i: int| 0 <= i < monitors.len() ==> done[i] is Some
                &&& forall|i: int|
                    0 <= i < monitors.len() ==> #[trigger] self.accounted(
                        monitors,
                        done,
                        reported,
                        i,
                    )
                &&& forall|i: int|
                    0 <= i < reported.len() ==> self.misplaced(monitors, #[trigger] reported[i])
            }),
        decreases unplaced(spots),
    {
        let now = self.settled(monitors, spots);
        self.settling_keeps(monitors, spots);
        self.settling_accounts(monitors, spots, lost);
        if exists|i: int| self.is_seed(monitors, now, i) {
            let i = choose|i: int| self.is_seed(monitors, now, i);
            let spot = (edge(monitors, now), 0int);
            let next = now.update(i, Some(spot));
            let name = monitors[i].0@;
            let more = if self.beside_of(name) is Some {
                lost.push(name)
            } else {
                lost
            };
            placing_one_leaves_one_fewer(now, i, spot);
            assert forall|other: Seq<char>| lost.contains(other) implies more.contains(other) by {
                let k = choose|k: int| 0 <= k < lost.len() && lost[k] == other;
                assert(more[k] == other);
            }
            assert(self.beside_of(name) is Some ==> more[lost.len() as int] == name);
            assert forall|k: int| 0 <= k < monitors.len() implies #[trigger] self.accounted(
                monitors,
                next,
                more,
                k,
            ) by {
                assert(self.accounted(monitors, now, lost, k));
                if k != i && now[k] is Some {
                    self.accounted_stays(monitors, now, next, lost, more, k);
                }
            }
            assert forall|k: int| 0 <= k < more.len() implies self.misplaced(
                monitors,
                #[trigger] more[k],
            ) by {
                if k < lost.len() {
                    assert(self.misplaced(monitors, lost[k]));
                } else {
                    if !self.is_foot(monitors, i) {
                        self.what_is_left_waits_for_nothing(monitors, now, i);
                    }
                    assert(monitors[i].0@ == more[k]);
                }
            }
            self.laying_accounts(monitors, next, more);
        } else {
            assert forall|i: int| 0 <= i < monitors.len() implies now[i] is Some by {
                if now[i] is None {
                    self.there_is_a_seed(monitors, now, i);
                }
            }
        }
    }

    /// Every monitor gets a position, whatever the configuration says: one
    /// that names nothing, a chain with no end, monitors that name each other.
    pub proof fn every_monitor_has_a_place(self, monitors: Monitors)
        ensures
            self.layout(monitors).0.len() == monitors.len(),
            forall|i: int| 0 <= i < monitors.len() ==> self.layout(monitors).0[i] is Some,
    {
        self.laying_accounts(monitors, self.fixed(monitors), Seq::empty());
    }

    /// A monitor that was told outright where to go goes there.
    pub proof fn a_configured_position_is_kept(self, monitors: Monitors, i: int)
        requires
            0 <= i < monitors.len(),
            self.fixed_at(monitors[i].0@) is Some,
        ensures
            self.layout(monitors).0[i] == self.fixed_at(monitors[i].0@),
    {
        self.laying_keeps(monitors, self.fixed(monitors), Seq::empty());
    }

    /// A monitor that was said to be beside another, and not where to go
    /// outright, is beside the place that one ended up in, or it is reported.
    /// One whose anchor is not plugged in is always reported.
    pub proof fn beside_its_anchor_or_reported(self, monitors: Monitors, i: int)
        requires
            0 <= i < monitors.len(),
            self.fixed_at(monitors[i].0@) is None,
            self.beside_of(monitors[i].0@) is Some,
        ensures
            ({
                let (spots, reported) = self.layout(monitors);
                ||| reported.contains(monitors[i].0@)
                ||| {
                    &&& self.anchor_of(monitors, i) is Some
                    &&& spots[i] == Some(self.hung(monitors, spots, i))
                }
            }),
            self.anchor_of(monitors, i) is None ==> self.layout(monitors).1.contains(
                monitors[i].0@,
            ),
    {
        self.laying_accounts(monitors, self.fixed(monitors), Seq::empty());
        let (spots, reported) = self.layout(monitors);
        assert(self.accounted(monitors, spots, reported, i));
    }

    /// Only a monitor that is plugged in and cannot be beside what it was said
    /// to be is reported: that is not there, or the two are in a circle.
    pub proof fn only_the_misplaced_are_reported(self, monitors: Monitors, name: Seq<char>)
        requires
            self.layout(monitors).1.contains(name),
        ensures
            self.misplaced(monitors, name),
            plugged(monitors, name),
            self.beside_of(name) is Some,
    {
        self.laying_accounts(monitors, self.fixed(monitors), Seq::empty());
        let reported = self.layout(monitors).1;
        let k = choose|k: int| 0 <= k < reported.len() && reported[k] == name;
        assert(self.misplaced(monitors, reported[k]));
    }

    /// A monitor that was said to be beside one that is there, and is in no
    /// circle, is beside it and is not reported, in whatever order the monitors
    /// come and whether or not any of them was told where to go.
    pub proof fn a_chain_hangs_from_its_foot(self, monitors: Monitors, i: int)
        requires
            0 <= i < monitors.len(),
            self.fixed_at(monitors[i].0@) is None,
            self.anchor_of(monitors, i) is Some,
            !self.in_a_circle(monitors, i),
        ensures
            self.layout(monitors).0[i] == Some(
                self.hung(monitors, self.layout(monitors).0, i),
            ),
            !self.layout(monitors).1.contains(monitors[i].0@),
    {
        let name = monitors[i].0@;
        self.beside_its_anchor_or_reported(monitors, i);
        if self.layout(monitors).1.contains(name) {
            self.only_the_misplaced_are_reported(monitors, name);
            let k = choose|k: int|
                {
                    &&& 0 <= k < monitors.len()
                    &&& (#[trigger] monitors[k]).0@ == name
                    &&& self.anchor_of(monitors, k) is None || self.in_a_circle(monitors, k)
                };
            let n = choose|n: nat|
                1 <= n <= monitors.len() && #[trigger] self.comes_back(monitors, k, n);
            self.namesakes_lead_the_same_way(monitors, i, k, n);
            assert(self.comes_back(monitors, i, n));
        }
    }

    proof fn namesakes_lead_the_same_way(self, monitors: Monitors, i: int, k: int, n: nat)
        requires
            monitors[i].0@ == monitors[k].0@,
            n >= 1,
        ensures
            self.followed(monitors, i, n) == self.followed(monitors, k, n),
        decreases n,
    {
        if n > 1 {
            self.namesakes_lead_the_same_way(monitors, i, k, (n - 1) as nat);
        } else {
            reveal_with_fuel(Arrangement::followed, 2);
        }
    }
}

/// Whether no two placements are for one connector.
pub open spec fn names_are_distinct(placements: Seq<Placement>) -> bool {
    forall|i: int, j: int|
        0 <= i < j < placements.len() ==> (#[trigger] placements[i]).name@ != (
        #[trigger] placements[j]).name@
}

/// What is found for a connector is one of the placements, and where there is
/// none for it, nothing is.
proof fn found_is_there(placements: Seq<Placement>, name: Seq<char>)
    ensures
        match found(placements, name) {
            Some(placement) => placements.contains(placement) && placement.name@ == name,
            None => forall|i: int| 0 <= i < placements.len() ==> (#[trigger] placements[i]).name@
                != name,
        },
    decreases placements.len(),
{
    if placements.len() > 0 {
        let rest = placements.drop_first();
        if placements.first().name@ == name {
            assert(placements[0] == placements.first());
        } else {
            found_is_there(rest, name);
            match found(rest, name) {
                Some(placement) => {
                    let k = choose|k: int| 0 <= k < rest.len() && rest[k] == placement;
                    assert(placements[k + 1] == placement);
                },
                None => {
                    assert forall|i: int| 0 <= i < placements.len() implies (
                    #[trigger] placements[i]).name@ != name by {
                        if i > 0 {
                            assert(rest[i - 1] == placements[i]);
                        }
                    }
                },
            }
        }
    }
}

/// Where each connector has one placement, what is found for it does not depend
/// on the order they are written in.
pub proof fn the_order_of_placements_is_not_looked_at(
    one: Seq<Placement>,
    other: Seq<Placement>,
    name: Seq<char>,
)
    requires
        names_are_distinct(one),
        forall|placement: Placement| one.contains(placement) <==> other.contains(placement),
    ensures
        found(one, name) == found(other, name),
{
    found_is_there(one, name);
    found_is_there(other, name);
    match (found(one, name), found(other, name)) {
        (Some(a), Some(b)) => {
            assert(one.contains(b));
            let i = choose|i: int| 0 <= i < one.len() && one[i] == a;
            let j = choose|j: int| 0 <= j < one.len() && one[j] == b;
            if i < j {
                assert(one[i].name@ != one[j].name@);
            } else if j < i {
                assert(one[j].name@ != one[i].name@);
            }
        },
        (Some(a), None) => {
            assert(other.contains(a));
            let i = choose|i: int| 0 <= i < other.len() && other[i] == a;
            assert(other[i].name@ == name);
        },
        (None, Some(b)) => {
            assert(one.contains(b));
            let i = choose|i: int| 0 <= i < one.len() && one[i] == b;
            assert(one[i].name@ == name);
        },
        (None, None) => {},
    }
}

impl Arrangement {
    /// Whether two arrangements say the same of every connector.
    pub open spec fn agrees(self, other: Arrangement) -> bool {
        forall|name: Seq<char>| #[trigger]
            self.beside_of(name) == other.beside_of(name) && self.fixed_at(name) == other.fixed_at(
                name,
            )
    }

    proof fn agreeing_settles_the_same(self, other: Arrangement, monitors: Monitors, spots: Spots)
        requires
            self.agrees(other),
            spots.len() == monitors.len(),
        ensures
            self.settled(monitors, spots) == other.settled(monitors, spots),
        decreases unplaced(spots),
    {
        assert forall|i: int|
            self.ready(monitors, spots, i) == #[trigger] other.ready(monitors, spots, i) by {
            assert(self.beside_of(monitors[i].0@) == other.beside_of(monitors[i].0@));
        }
        if exists|i: int| self.ready(monitors, spots, i) {
            let i = choose|i: int| self.ready(monitors, spots, i);
            assert(other.ready(monitors, spots, i));
            let at = self.hung(monitors, spots, i);
            assert(self.beside_of(monitors[i].0@) == other.beside_of(monitors[i].0@));
            assert(at == other.hung(monitors, spots, i));
            placing_one_leaves_one_fewer(spots, i, at);
            other.any_order_settles_the_same(monitors, spots, i);
            self.agreeing_settles_the_same(other, monitors, spots.update(i, Some(at)));
        } else {
            assert forall|i: int| !other.ready(monitors, spots, i) by {
                assert(!self.ready(monitors, spots, i));
            }
        }
    }

    proof fn agreeing_follows_the_same(self, other: Arrangement, monitors: Monitors, i: int, n: nat)
        requires
            self.agrees(other),
        ensures
            self.followed(monitors, i, n) == other.followed(monitors, i, n),
        decreases n,
    {
        if n > 0 {
            self.agreeing_follows_the_same(other, monitors, i, (n - 1) as nat);
            match self.followed(monitors, i, (n - 1) as nat) {
                Some(k) => {
                    assert(self.beside_of(monitors[k].0@) == other.beside_of(monitors[k].0@));
                },
                None => {},
            }
        }
    }

    proof fn agreeing_has_the_same_feet(self, other: Arrangement, monitors: Monitors, i: int)
        requires
            self.agrees(other),
        ensures
            self.is_foot(monitors, i) == other.is_foot(monitors, i),
    {
        assert(self.beside_of(monitors[i].0@) == other.beside_of(monitors[i].0@));
        assert forall|k: int| #[trigger]
            self.beside_of(monitors[k].0@) == other.beside_of(monitors[k].0@) by {}
        assert(self.wanted(monitors, i) == other.wanted(monitors, i)) by {
            if self.wanted(monitors, i) {
                let k = choose|k: int|
                    0 <= k < monitors.len() && (#[trigger] self.beside_of(
                        monitors[k].0@,
                    ) matches Some((_, anchor, _)) && anchor == monitors[i].0@);
                assert(other.beside_of(monitors[k].0@) == self.beside_of(monitors[k].0@));
            }
            if other.wanted(monitors, i) {
                let k = choose|k: int|
                    0 <= k < monitors.len() && (#[trigger] other.beside_of(
                        monitors[k].0@,
                    ) matches Some((_, anchor, _)) && anchor == monitors[i].0@);
                assert(self.beside_of(monitors[k].0@) == other.beside_of(monitors[k].0@));
            }
        }
        assert forall|n: nat| #[trigger]
            self.comes_back(monitors, i, n) == other.comes_back(monitors, i, n) by {
            self.agreeing_follows_the_same(other, monitors, i, n);
        }
        assert(self.in_a_circle(monitors, i) == other.in_a_circle(monitors, i)) by {
            if self.in_a_circle(monitors, i) {
                let n = choose|n: nat|
                    1 <= n <= monitors.len() && #[trigger] self.comes_back(monitors, i, n);
                assert(other.comes_back(monitors, i, n));
            }
            if other.in_a_circle(monitors, i) {
                let n = choose|n: nat|
                    1 <= n <= monitors.len() && #[trigger] other.comes_back(monitors, i, n);
                assert(self.comes_back(monitors, i, n) == other.comes_back(monitors, i, n));
            }
        }
    }

    proof fn agreeing_lays_the_same(
        self,
        other: Arrangement,
        monitors: Monitors,
        spots: Spots,
        lost: Seq<Seq<char>>,
    )
        requires
            self.agrees(other),
            spots.len() == monitors.len(),
        ensures
            self.laid(monitors, spots, lost) == other.laid(monitors, spots, lost),
        decreases unplaced(spots),
    {
        self.agreeing_settles_the_same(other, monitors, spots);
        self.settling_keeps(monitors, spots);
        let now = self.settled(monitors, spots);
        assert forall|k: int| #[trigger]
            self.is_foot(monitors, k) == other.is_foot(monitors, k) by {
            self.agreeing_has_the_same_feet(other, monitors, k);
        }
        assert forall|i: int|
            self.is_seed(monitors, now, i) == #[trigger] other.is_seed(monitors, now, i) by {
            assert forall|k: int| self.is_foot(monitors, k) == #[trigger] other.is_foot(
                monitors,
                k,
            ) by {
                assert(self.is_foot(monitors, k) == other.is_foot(monitors, k));
            }
        }
        if exists|i: int| self.is_seed(monitors, now, i) {
            let i = choose|i: int| self.is_seed(monitors, now, i);
            assert(other.is_seed(monitors, now, i));
            let j = choose|j: int| other.is_seed(monitors, now, j);
            other.one_seed(monitors, now, i, j);
            let at = (edge(monitors, now), 0int);
            let name = monitors[i].0@;
            assert(self.beside_of(name) == other.beside_of(name));
            placing_one_leaves_one_fewer(now, i, at);
            let more = if self.beside_of(name) is Some {
                lost.push(name)
            } else {
                lost
            };
            self.agreeing_lays_the_same(other, monitors, now.update(i, Some(at)), more);
        } else {
            assert forall|i: int| !other.is_seed(monitors, now, i) by {
                assert(!self.is_seed(monitors, now, i));
            }
        }
    }

    /// Where each connector has one placement, the order that they are written
    /// in makes no difference to where monitors go or who is reported.
    pub proof fn any_order_of_placements_lays_the_same(
        self,
        other: Arrangement,
        monitors: Monitors,
    )
        requires
            names_are_distinct(self.placements@),
            forall|placement: Placement|
                self.placements@.contains(placement) <==> other.placements@.contains(placement),
        ensures
            self.layout(monitors) == other.layout(monitors),
    {
        assert forall|name: Seq<char>| #[trigger]
            self.beside_of(name) == other.beside_of(name) && self.fixed_at(name) == other.fixed_at(
                name,
            ) by {
            the_order_of_placements_is_not_looked_at(self.placements@, other.placements@, name);
        }
        assert(self.fixed(monitors) =~= other.fixed(monitors)) by {
            assert forall|i: int| 0 <= i < monitors.len() implies self.fixed(monitors)[i]
                == other.fixed(monitors)[i] by {
                assert(self.beside_of(monitors[i].0@) == other.beside_of(monitors[i].0@));
            }
        }
        self.agreeing_lays_the_same(other, monitors, self.fixed(monitors), Seq::empty());
    }
}

/// How far a monitor of a size reaches from its corner, either way.
pub open spec fn reach(size: Size) -> int {
    larger(larger(size.w as int, -size.w), larger(size.h as int, -size.h))
}

/// How far all of the first `n` monitors reach, one after another.
pub open spec fn reaches(monitors: Monitors, n: nat) -> int
    decreases n,
{
    if n == 0 {
        0
    } else {
        reaches(monitors, (n - 1) as nat) + reach(monitors[n - 1].1)
    }
}

/// How far those of the first `n` monitors reach that have no place, one after
/// another.
spec fn pending(monitors: Monitors, spots: Spots, n: nat) -> int
    decreases n,
{
    if n == 0 {
        0
    } else {
        pending(monitors, spots, (n - 1) as nat) + if spots[n - 1] is None {
            reach(monitors[n - 1].1)
        } else {
            0
        }
    }
}

/// Whether a number is at most `most`, on either side of zero.
pub open spec fn within(v: int, most: int) -> bool {
    -most <= v <= most
}

/// Whether a monitor at a spot stays within `most` of the origin.
spec fn stays(spot: Option<(int, int)>, size: Size, most: int) -> bool {
    match spot {
        Some((x, y)) => within(x, most - reach(size)) && within(y, most - reach(size)),
        None => true,
    }
}

/// Whether every monitor that has a place stays so far within `most` that those
/// that have none cannot get past it.
spec fn contained(monitors: Monitors, spots: Spots, most: int) -> bool {
    &&& spots.len() == monitors.len()
    &&& most >= 2 * pending(monitors, spots, monitors.len())
    &&& forall|i: int|
        0 <= i < monitors.len() ==> stays(
            #[trigger] spots[i],
            monitors[i].1,
            most - 2 * pending(monitors, spots, monitors.len()),
        )
}

proof fn pending_is_part_of_all(monitors: Monitors, spots: Spots, n: nat)
    requires
        n <= monitors.len(),
    ensures
        0 <= pending(monitors, spots, n) <= reaches(monitors, n),
    decreases n,
{
    if n > 0 {
        pending_is_part_of_all(monitors, spots, (n - 1) as nat);
    }
}

proof fn one_reach_is_part_of_all(monitors: Monitors, i: int, n: nat)
    requires
        0 <= i < n <= monitors.len(),
    ensures
        0 <= reach(monitors[i].1) <= reaches(monitors, n),
    decreases n,
{
    pending_is_part_of_all(monitors, Seq::new(monitors.len(), |k: int| None), (n - 1) as nat);
    if i < n - 1 {
        one_reach_is_part_of_all(monitors, i, (n - 1) as nat);
    }
}

proof fn placing_one_leaves_less_pending(
    monitors: Monitors,
    spots: Spots,
    i: int,
    spot: (int, int),
    n: nat,
)
    requires
        spots.len() == monitors.len(),
        0 <= i < spots.len(),
        spots[i] is None,
        n <= monitors.len(),
    ensures
        pending(monitors, spots.update(i, Some(spot)), n) == pending(monitors, spots, n) - if i < n {
            reach(monitors[i].1)
        } else {
            0
        },
    decreases n,
{
    if n > 0 {
        placing_one_leaves_less_pending(monitors, spots, i, spot, (n - 1) as nat);
    }
}

proof fn the_edge_is_contained(monitors: Monitors, spots: Spots, n: nat, most: int)
    requires
        spots.len() == monitors.len(),
        n <= monitors.len(),
        forall|i: int|
            0 <= i < monitors.len() ==> stays(#[trigger] spots[i], monitors[i].1, most),
    ensures
        edge_to(monitors, spots, n) matches Some(edge) ==> within(edge, most),
    decreases n,
{
    if n > 0 {
        the_edge_is_contained(monitors, spots, (n - 1) as nat, most);
        assert(stays(spots[n - 1], monitors[n - 1].1, most));
    }
}

proof fn one_more_is_contained(
    monitors: Monitors,
    spots: Spots,
    i: int,
    spot: (int, int),
    most: int,
)
    requires
        contained(monitors, spots, most),
        0 <= i < monitors.len(),
        spots[i] is None,
        ({
            let near = most - 2 * pending(monitors, spots, monitors.len());
            &&& within(spot.0, near + reach(monitors[i].1))
            &&& within(spot.1, near + reach(monitors[i].1))
        }),
    ensures
        contained(monitors, spots.update(i, Some(spot)), most),
{
    let after = spots.update(i, Some(spot));
    let all = monitors.len();
    placing_one_leaves_less_pending(monitors, spots, i, spot, all);
    assert forall|k: int| 0 <= k < monitors.len() implies stays(
        #[trigger] after[k],
        monitors[k].1,
        most - 2 * pending(monitors, after, all),
    ) by {
        if k != i {
            assert(stays(spots[k], monitors[k].1, most - 2 * pending(monitors, spots, all)));
        }
    }
}

impl Arrangement {
    proof fn settling_is_contained(self, monitors: Monitors, spots: Spots, most: int)
        requires
            contained(monitors, spots, most),
        ensures
            contained(monitors, self.settled(monitors, spots), most),
        decreases unplaced(spots),
    {
        if exists|i: int| self.ready(monitors, spots, i) {
            let i = choose|i: int| self.ready(monitors, spots, i);
            let at = self.hung(monitors, spots, i);
            let (_, name, _) = self.beside_of(monitors[i].0@)->0;
            first_named_is_first(monitors, name);
            let anchor = self.anchor_of(monitors, i)->0;
            placing_one_leaves_one_fewer(spots, i, at);
            assert(stays(
                spots[anchor],
                monitors[anchor].1,
                most - 2 * pending(monitors, spots, monitors.len()),
            ));
            one_more_is_contained(monitors, spots, i, at, most);
            self.settling_is_contained(monitors, spots.update(i, Some(at)), most);
        }
    }

    proof fn laying_is_contained(
        self,
        monitors: Monitors,
        spots: Spots,
        lost: Seq<Seq<char>>,
        most: int,
    )
        requires
            contained(monitors, spots, most),
        ensures
            contained(monitors, self.laid(monitors, spots, lost).0, most),
        decreases unplaced(spots),
    {
        let now = self.settled(monitors, spots);
        self.settling_keeps(monitors, spots);
        self.settling_is_contained(monitors, spots, most);
        if exists|i: int| self.is_seed(monitors, now, i) {
            let i = choose|i: int| self.is_seed(monitors, now, i);
            let spot = (edge(monitors, now), 0int);
            let near = most - 2 * pending(monitors, now, monitors.len());
            let name = monitors[i].0@;
            placing_one_leaves_one_fewer(now, i, spot);
            the_edge_is_contained(monitors, now, monitors.len(), near);
            one_more_is_contained(monitors, now, i, spot, most);
            self.laying_is_contained(
                monitors,
                now.update(i, Some(spot)),
                if self.beside_of(name) is Some {
                    lost.push(name)
                } else {
                    lost
                },
                most,
            );
        }
    }

    /// Whether there is room for every monitor, wherever each ends up: no place
    /// that was said outright is so far off that three times all the pictures,
    /// one after another, would not fit between it and the end of the
    /// coordinates.
    pub open spec fn roomy(self, monitors: Monitors) -> bool {
        &&& 3 * reaches(monitors, monitors.len()) <= i32::MAX
        &&& forall|i: int|
            0 <= i < monitors.len() ==> (#[trigger] self.fixed_at(monitors[i].0@) matches Some((x, y))
                ==> within(x, i32::MAX - 3 * reaches(monitors, monitors.len())) && within(
                y,
                i32::MAX - 3 * reaches(monitors, monitors.len()),
            ))
    }

    /// Where there is room, every place can be said in coordinates.
    pub proof fn a_roomy_layout_fits(self, monitors: Monitors)
        requires
            self.roomy(monitors),
        ensures
            fits(self.layout(monitors).0),
    {
        let spots = self.fixed(monitors);
        let all = monitors.len();
        let most = i32::MAX as int;
        pending_is_part_of_all(monitors, spots, all);
        assert forall|i: int| 0 <= i < monitors.len() implies stays(
            #[trigger] spots[i],
            monitors[i].1,
            most - 2 * pending(monitors, spots, all),
        ) by {
            one_reach_is_part_of_all(monitors, i, all);
            assert(spots[i] == self.fixed_at(monitors[i].0@));
        }
        self.laying_is_contained(monitors, spots, Seq::empty(), most);
        let done = self.layout(monitors).0;
        pending_is_part_of_all(monitors, done, all);
        assert forall|i: int| 0 <= i < done.len() implies (#[trigger] done[i] matches Some((x, y))
            ==> is_coordinate(x) && is_coordinate(y)) by {
            assert(stays(done[i], monitors[i].1, most - 2 * pending(monitors, done, all)));
        }
    }

    /// Wherever monitors end up is in reach.
    proof fn every_layout_is_in_reach(self, monitors: Monitors)
        requires
            monitors.len() <= usize::MAX,
        ensures
            in_reach(self.layout(monitors).0),
    {
        let spots = self.fixed(monitors);
        let all = monitors.len();
        let most = 0x8000_0000 + 3 * reaches(monitors, all);
        reaches_are_bounded(monitors, all);
        pending_is_part_of_all(monitors, spots, all);
        assert forall|i: int| 0 <= i < monitors.len() implies stays(
            #[trigger] spots[i],
            monitors[i].1,
            most - 2 * pending(monitors, spots, all),
        ) by {
            one_reach_is_part_of_all(monitors, i, all);
            assert(spots[i] == self.fixed_at(monitors[i].0@));
        }
        self.laying_is_contained(monitors, spots, Seq::empty(), most);
        let done = self.layout(monitors).0;
        pending_is_part_of_all(monitors, done, all);
        assert forall|i: int| 0 <= i < done.len() implies (#[trigger] done[i] matches Some((x, y))
            ==> within(x, WIDE as int) && within(y, WIDE as int)) by {
            assert(stays(done[i], monitors[i].1, most - 2 * pending(monitors, done, all)));
        }
    }
}

proof fn reaches_are_bounded(monitors: Monitors, n: nat)
    requires
        n <= monitors.len(),
    ensures
        0 <= reaches(monitors, n) <= n * 0x8000_0000,
    decreases n,
{
    if n > 0 {
        reaches_are_bounded(monitors, (n - 1) as nat);
    }
}

/// How wide the first `n` monitors are together.
pub open spec fn widths(monitors: Monitors, n: nat) -> int
    decreases n,
{
    if n == 0 {
        0
    } else {
        widths(monitors, (n - 1) as nat) + monitors[n - 1].1.w
    }
}

/// The first `n` monitors in a row and no more.
spec fn row(monitors: Monitors, n: nat) -> Spots {
    Seq::new(
        monitors.len(),
        |i: int|
            if i < n {
                Some((widths(monitors, i as nat), 0int))
            } else {
                None
            },
    )
}

proof fn the_edge_of_a_row(monitors: Monitors, n: nat, m: nat)
    requires
        n <= monitors.len(),
        m <= monitors.len(),
        forall|i: int| 0 <= i < monitors.len() ==> (#[trigger] monitors[i]).1.w >= 0,
    ensures
        edge_to(monitors, row(monitors, n), m) == if n == 0 || m == 0 {
            None
        } else if m <= n {
            Some(widths(monitors, m))
        } else {
            Some(widths(monitors, n))
        },
    decreases m,
{
    if m > 0 {
        the_edge_of_a_row(monitors, n, (m - 1) as nat);
        assert(monitors[m - 1].1.w >= 0);
    }
}

proof fn a_row_goes_on(arrangement: Arrangement, monitors: Monitors, n: nat)
    requires
        arrangement.placements@.len() == 0,
        n <= monitors.len(),
        forall|i: int| 0 <= i < monitors.len() ==> (#[trigger] monitors[i]).1.w >= 0,
    ensures
        arrangement.laid(monitors, row(monitors, n), Seq::empty()) == (
            row(monitors, monitors.len()),
            Seq::<Seq<char>>::empty(),
        ),
    decreases monitors.len() - n,
{
    let spots = row(monitors, n);
    assert forall|i: int| !arrangement.ready(monitors, spots, i) by {}
    assert(arrangement.settled(monitors, spots) == spots);
    assert forall|i: int| !arrangement.wanted(monitors, i) by {}
    if n < monitors.len() {
        assert(arrangement.is_seed(monitors, spots, n as int));
        let i = choose|i: int| arrangement.is_seed(monitors, spots, i);
        arrangement.one_seed(monitors, spots, i, n as int);
        the_edge_of_a_row(monitors, n, monitors.len());
        assert(spots.update(n as int, Some((widths(monitors, n), 0int))) =~= row(
            monitors,
            (n + 1) as nat,
        ));
        a_row_goes_on(arrangement, monitors, (n + 1) as nat);
    } else {
        assert(forall|i: int| 0 <= i < monitors.len() ==> spots[i] is Some);
        assert(forall|i: int| !arrangement.is_seed(monitors, spots, i));
    }
}

/// Monitors that nobody said anything about go left to right, in the order
/// they came in, each where the one before it ends, and none is reported.
pub proof fn unconfigured_monitors_go_left_to_right(
    arrangement: Arrangement,
    monitors: Monitors,
    i: int,
)
    requires
        arrangement.placements@.len() == 0,
        forall|i: int| 0 <= i < monitors.len() ==> (#[trigger] monitors[i]).1.w >= 0,
        0 <= i < monitors.len(),
    ensures
        arrangement.layout(monitors).0[i] == Some((widths(monitors, i as nat), 0int)),
        arrangement.layout(monitors).1.len() == 0,
{
    assert(arrangement.fixed(monitors) =~= row(monitors, 0));
    a_row_goes_on(arrangement, monitors, 0);
}

/// The first placement for a connector is the one that counts, and where there
/// is none nothing is known of it.
pub proof fn the_first_placement_counts(placements: Seq<Placement>, name: Seq<char>, i: int)
    requires
        0 <= i < placements.len(),
        placements[i].name@ == name,
        forall|k: int| 0 <= k < i ==> (#[trigger] placements[k]).name@ != name,
    ensures
        found(placements, name) == Some(placements[i]),
    decreases i,
{
    if i > 0 {
        let rest = placements.drop_first();
        assert(placements[0].name@ != name);
        assert(rest[i - 1] == placements[i]);
        assert forall|k: int| 0 <= k < i - 1 implies (#[trigger] rest[k]).name@ != name by {
            assert(rest[k] == placements[k + 1]);
        }
        the_first_placement_counts(rest, name, i - 1);
    }
}

/// Nothing is known of a connector that no placement is for.
pub proof fn no_placement_says_nothing(placements: Seq<Placement>, name: Seq<char>)
    requires
        forall|k: int| 0 <= k < placements.len() ==> (#[trigger] placements[k]).name@ != name,
    ensures
        found(placements, name) is None,
    decreases placements.len(),
{
    if placements.len() > 0 {
        let rest = placements.drop_first();
        assert(placements[0].name@ != name);
        assert forall|k: int| 0 <= k < rest.len() implies (#[trigger] rest[k]).name@ != name by {
            assert(rest[k] == placements[k + 1]);
        }
        no_placement_says_nothing(rest, name);
    }
}

/// A monitor beside another touches it on the side that was said, and lines up
/// with it along that side: it starts where the other does, or ends where it
/// does, or reaches past it, or falls short of it, by as much at one end as at
/// the other, but for a pixel that cannot be split and is left at the far end.
pub proof fn beside_is_against_it_and_in_line(
    anchor: (int, int),
    anchor_size: Size,
    side: Side,
    align: Align,
    size: Size,
)
    ensures
        ({
            let (x, y) = spot_beside(anchor, anchor_size, side, align, size);
            let left = x - anchor.0;
            let right = (anchor.0 + anchor_size.w) - (x + size.w);
            let top = y - anchor.1;
            let bottom = (anchor.1 + anchor_size.h) - (y + size.h);
            &&& side == Side::Right ==> x == anchor.0 + anchor_size.w
            &&& side == Side::Left ==> x + size.w == anchor.0
            &&& side == Side::Below ==> y == anchor.1 + anchor_size.h
            &&& side == Side::Above ==> y + size.h == anchor.1
            &&& side == Side::Below || side == Side::Above ==> {
                &&& align == Align::Start ==> left == 0
                &&& align == Align::End ==> right == 0
                &&& align == Align::Centre && anchor_size.w >= size.w ==> right == left || right
                    == left + 1
                &&& align == Align::Centre && anchor_size.w < size.w ==> right == left || right
                    == left - 1
            }
            &&& side == Side::Right || side == Side::Left ==> {
                &&& align == Align::Start ==> top == 0
                &&& align == Align::End ==> bottom == 0
                &&& align == Align::Centre && anchor_size.h >= size.h ==> bottom == top || bottom
                    == top + 1
                &&& align == Align::Centre && anchor_size.h < size.h ==> bottom == top || bottom
                    == top - 1
            }
        }),
{
}

/// Moving what a monitor is beside moves the monitor by as much.
pub proof fn beside_moves_with_it(
    anchor: (int, int),
    by: (int, int),
    anchor_size: Size,
    side: Side,
    align: Align,
    size: Size,
)
    ensures
        ({
            let at = spot_beside(anchor, anchor_size, side, align, size);
            spot_beside((anchor.0 + by.0, anchor.1 + by.1), anchor_size, side, align, size) == (
                at.0 + by.0,
                at.1 + by.1,
            )
        }),
{
}

/// No end of an edge is past what has a place, and the edge is the end of one of
/// them.
proof fn the_edge_is_past_everything(monitors: Monitors, spots: Spots, n: nat, k: int)
    requires
        n <= monitors.len(),
        spots.len() == monitors.len(),
        0 <= k < n,
        spots[k] is Some,
    ensures
        edge_to(monitors, spots, n) is Some,
        edge_to(monitors, spots, n)->0 >= spots[k]->Some_0.0 + monitors[k].1.w,
    decreases n,
{
    if k < n - 1 {
        the_edge_is_past_everything(monitors, spots, (n - 1) as nat, k);
    }
}

proof fn the_edge_of_nothing(monitors: Monitors, spots: Spots, n: nat)
    requires
        n <= monitors.len(),
        forall|k: int| 0 <= k < n ==> spots[k] is None,
    ensures
        edge_to(monitors, spots, n) is None,
    decreases n,
{
    if n > 0 {
        the_edge_of_nothing(monitors, spots, (n - 1) as nat);
    }
}

impl Arrangement {
    /// What a placement says of its connector: where it goes outright, and what it
    /// goes beside.
    pub proof fn a_placement_says_where(self, i: int)
        requires
            0 <= i < self.placements.len(),
            forall|k: int|
                0 <= k < i ==> (#[trigger] self.placements@[k]).name@ != self.placements@[i].name@,
        ensures
            ({
                let placement = self.placements@[i];
                let name = placement.name@;
                &&& match placement.at {
                    Some(at) => self.fixed_at(name) == Some((at.x as int, at.y as int)),
                    None => self.fixed_at(name) is None,
                }
                &&& match placement.beside {
                    Some((side, anchor, align)) => self.beside_of(name) == Some(
                        (side, anchor@, align),
                    ),
                    None => self.beside_of(name) is None,
                }
            }),
    {
        the_first_placement_counts(self.placements@, self.placements@[i].name@, i);
    }

    /// A monitor that was told outright where to go is there: `p` is the first
    /// placement for it.
    pub proof fn a_monitor_is_where_it_was_put(self, monitors: Monitors, i: int, p: int)
        requires
            0 <= i < monitors.len(),
            0 <= p < self.placements.len(),
            self.placements@[p].name@ == monitors[i].0@,
            forall|k: int|
                0 <= k < p ==> (#[trigger] self.placements@[k]).name@ != monitors[i].0@,
            self.placements@[p].at is Some,
        ensures
            self.layout(monitors).0[i] == Some(
                (self.placements@[p].at->0.x as int, self.placements@[p].at->0.y as int),
            ),
    {
        self.a_placement_says_where(p);
        self.a_configured_position_is_kept(monitors, i);
    }

    /// A monitor that was said to go beside another, and is not in a circle, ends
    /// up against that one and in line with it, wherever that one ended up: `p` is
    /// the first placement for it, and `k` the first monitor of the name it goes
    /// beside.
    pub proof fn a_monitor_is_laid_against_its_anchor(
        self,
        monitors: Monitors,
        i: int,
        k: int,
        p: int,
    )
        requires
            0 <= i < monitors.len(),
            0 <= k < monitors.len(),
            0 <= p < self.placements.len(),
            self.placements@[p].name@ == monitors[i].0@,
            forall|q: int|
                0 <= q < p ==> (#[trigger] self.placements@[q]).name@ != monitors[i].0@,
            self.placements@[p].at is None,
            self.placements@[p].beside is Some,
            self.placements@[p].beside->Some_0.1@ == monitors[k].0@,
            forall|q: int| 0 <= q < k ==> (#[trigger] monitors[q]).0@ != monitors[k].0@,
            !self.in_a_circle(monitors, i),
        ensures
            ({
                let (side, _, align) = self.placements@[p].beside->0;
                let spots = self.layout(monitors).0;
                let (x, y) = spots[i]->0;
                let (ax, ay) = spots[k]->0;
                let (w, h) = (monitors[i].1.w, monitors[i].1.h);
                let (aw, ah) = (monitors[k].1.w, monitors[k].1.h);
                let left = x - ax;
                let right = (ax + aw) - (x + w);
                let top = y - ay;
                let bottom = (ay + ah) - (y + h);
                &&& spots[i] is Some
                &&& spots[k] is Some
                &&& side == Side::Right ==> x == ax + aw
                &&& side == Side::Left ==> x + w == ax
                &&& side == Side::Below ==> y == ay + ah
                &&& side == Side::Above ==> y + h == ay
                &&& side == Side::Below || side == Side::Above ==> {
                    &&& align == Align::Start ==> left == 0
                    &&& align == Align::End ==> right == 0
                    &&& align == Align::Centre && aw >= w ==> right == left || right == left + 1
                    &&& align == Align::Centre && aw < w ==> right == left || right == left - 1
                }
                &&& side == Side::Right || side == Side::Left ==> {
                    &&& align == Align::Start ==> top == 0
                    &&& align == Align::End ==> bottom == 0
                    &&& align == Align::Centre && ah >= h ==> bottom == top || bottom == top + 1
                    &&& align == Align::Centre && ah < h ==> bottom == top || bottom == top - 1
                }
                &&& !self.layout(monitors).1.contains(monitors[i].0@)
            }),
    {
        self.a_placement_says_where(p);
        let (side, anchor, align) = self.placements@[p].beside->0;
        first_named_is_first(monitors, anchor@);
        assert(first_named(monitors, anchor@) == Some(k)) by {
            let j = first_named(monitors, anchor@)->0;
            if j < k {
                assert(monitors[j].0@ != monitors[k].0@);
            } else if k < j {
                assert(monitors[k].0@ != anchor@);
            }
        }
        self.a_chain_hangs_from_its_foot(monitors, i);
        self.every_monitor_has_a_place(monitors);
        let spots = self.layout(monitors).0;
        assert(spots[k] is Some);
        beside_is_against_it_and_in_line(
            spots[k]->0,
            monitors[k].1,
            side,
            align,
            monitors[i].1,
        );
    }

    /// A monitor is in a circle where following what each goes beside, one after
    /// another, comes back to its name, and not where that comes to an end first.
    pub proof fn a_circle_comes_back(self, monitors: Monitors, i: int)
        requires
            0 <= i < monitors.len(),
        ensures
            self.anchor_of(monitors, i) is None ==> !self.in_a_circle(monitors, i),
            self.anchor_of(monitors, i) matches Some(k) && monitors[k].0@ == monitors[i].0@
                ==> self.in_a_circle(monitors, i),
    {
        if self.anchor_of(monitors, i) is None {
            assert forall|n: nat| 1 <= n <= monitors.len() implies !#[trigger] self.comes_back(
                monitors,
                i,
                n,
            ) by {
                reveal_with_fuel(Arrangement::followed, 2);
                assert(self.followed(monitors, i, 1) is None);
                self.ended_stays_ended(monitors, i, 1, n);
            }
        }
        if let Some(k) = self.anchor_of(monitors, i) {
            if monitors[k].0@ == monitors[i].0@ {
                reveal_with_fuel(Arrangement::followed, 2);
                assert(self.comes_back(monitors, i, 1));
            }
        }
    }

    /// Where monitor `i` was said nothing of, whether its place is at the top and to
    /// the right of everything that was told outright where to go.
    spec fn clear_of_the_fixed(self, monitors: Monitors, spots: Spots, i: int) -> bool {
        spots[i] is Some && self.fixed_at(monitors[i].0@) is None && self.beside_of(
            monitors[i].0@,
        ) is None ==> {
            &&& spots[i]->Some_0.1 == 0
            &&& forall|k: int|
                0 <= k < monitors.len() ==> (#[trigger] self.fixed_at(monitors[k].0@) matches Some(
                    (x, _),
                ) ==> spots[i]->Some_0.0 >= x + monitors[k].1.w)
        }
    }

    proof fn settling_leaves_the_rest(self, monitors: Monitors, spots: Spots, i: int)
        requires
            spots.len() == monitors.len(),
            0 <= i < monitors.len(),
            self.beside_of(monitors[i].0@) is None,
        ensures
            self.settled(monitors, spots)[i] == spots[i],
        decreases unplaced(spots),
    {
        if exists|j: int| self.ready(monitors, spots, j) {
            let j = choose|j: int| self.ready(monitors, spots, j);
            let at = self.hung(monitors, spots, j);
            placing_one_leaves_one_fewer(spots, j, at);
            assert(j != i);
            self.settling_leaves_the_rest(monitors, spots.update(j, Some(at)), i);
        }
    }

    proof fn laying_stays_clear(
        self,
        monitors: Monitors,
        spots: Spots,
        lost: Seq<Seq<char>>,
        i: int,
    )
        requires
            spots.len() == monitors.len(),
            0 <= i < monitors.len(),
            keeps(self.fixed(monitors), spots),
            self.clear_of_the_fixed(monitors, spots, i),
        ensures
            self.clear_of_the_fixed(monitors, self.laid(monitors, spots, lost).0, i),
        decreases unplaced(spots),
    {
        let now = self.settled(monitors, spots);
        self.settling_keeps(monitors, spots);
        if self.beside_of(monitors[i].0@) is None {
            self.settling_leaves_the_rest(monitors, spots, i);
        }
        if exists|j: int| self.is_seed(monitors, now, j) {
            let j = choose|j: int| self.is_seed(monitors, now, j);
            let at = (edge(monitors, now), 0int);
            let next = now.update(j, Some(at));
            let name = monitors[j].0@;
            placing_one_leaves_one_fewer(now, j, at);
            assert forall|k: int|
                0 <= k < monitors.len() && j == i implies (#[trigger] self.fixed_at(
                monitors[k].0@,
            ) matches Some((x, _)) ==> at.0 >= x + monitors[k].1.w) by {
                if self.fixed_at(monitors[k].0@) is Some {
                    assert(self.fixed(monitors)[k] == self.fixed_at(monitors[k].0@));
                    assert(spots[k] == self.fixed(monitors)[k]);
                    assert(now[k] == spots[k]);
                    the_edge_is_past_everything(monitors, now, monitors.len(), k);
                }
            }
            assert(self.clear_of_the_fixed(monitors, next, i));
            assert(keeps(self.fixed(monitors), next)) by {
                assert forall|k: int|
                    0 <= k < monitors.len() && self.fixed(monitors)[k] is Some implies next[k]
                    == self.fixed(monitors)[k] by {
                    assert(spots[k] == self.fixed(monitors)[k]);
                    assert(now[k] == spots[k]);
                }
            }
            self.laying_stays_clear(
                monitors,
                next,
                if self.beside_of(name) is Some {
                    lost.push(name)
                } else {
                    lost
                },
                i,
            );
        }
    }

    /// A monitor that nothing was said of is put down at the top, to the right of
    /// every monitor that was told outright where to go: it covers none of them.
    pub proof fn the_rest_goes_to_the_right(self, monitors: Monitors, i: int, k: int)
        requires
            0 <= i < monitors.len(),
            0 <= k < monitors.len(),
            self.fixed_at(monitors[i].0@) is None,
            self.beside_of(monitors[i].0@) is None,
        ensures
            ({
                let spots = self.layout(monitors).0;
                &&& spots[i] is Some
                &&& spots[i]->Some_0.1 == 0
                &&& self.fixed_at(monitors[k].0@) is Some ==> spots[i]->Some_0.0 >= spots[k]->Some_0.0
                    + monitors[k].1.w
            }),
    {
        let fixed = self.fixed(monitors);
        assert(fixed[i] == self.fixed_at(monitors[i].0@));
        assert(self.clear_of_the_fixed(monitors, fixed, i));
        self.laying_stays_clear(monitors, fixed, Seq::empty(), i);
        self.every_monitor_has_a_place(monitors);
        if self.fixed_at(monitors[k].0@) is Some {
            self.a_configured_position_is_kept(monitors, k);
        }
    }

    /// Where no monitor was told outright where to go, the first that others can
    /// begin at is at the origin, or else the first there is.
    pub proof fn the_desk_begins_at_the_origin(self, monitors: Monitors, i: int)
        requires
            0 <= i < monitors.len(),
            forall|k: int| 0 <= k < monitors.len() ==> self.fixed_at(monitors[k].0@) is None,
            if self.is_foot(monitors, i) {
                forall|k: int| 0 <= k < i ==> !#[trigger] self.is_foot(monitors, k)
            } else {
                i == 0 && forall|k: int|
                    0 <= k < monitors.len() ==> !#[trigger] self.is_foot(monitors, k)
            },
        ensures
            self.layout(monitors).0[i] == Some((0int, 0int)),
    {
        let fixed = self.fixed(monitors);
        assert forall|k: int| 0 <= k < monitors.len() implies fixed[k] is None by {
            assert(self.fixed_at(monitors[k].0@) is None);
        }
        assert forall|k: int| !self.ready(monitors, fixed, k) by {
            if self.ready(monitors, fixed, k) {
                let (_, anchor, _) = self.beside_of(monitors[k].0@)->0;
                first_named_is_first(monitors, anchor);
            }
        }
        assert(self.settled(monitors, fixed) == fixed);
        assert(self.is_seed(monitors, fixed, i));
        let j = choose|j: int| self.is_seed(monitors, fixed, j);
        self.one_seed(monitors, fixed, i, j);
        the_edge_of_nothing(monitors, fixed, monitors.len());
        let at = (edge(monitors, fixed), 0int);
        assert(at == (0int, 0int));
        let next = fixed.update(i, Some(at));
        let name = monitors[i].0@;
        let lost = if self.beside_of(name) is Some {
            Seq::<Seq<char>>::empty().push(name)
        } else {
            Seq::empty()
        };
        assert(self.layout(monitors) == self.laid(monitors, next, lost));
        self.laying_keeps(monitors, next, lost);
    }
}

/// The names that no monitor answers to are those of placements, and every one of
/// them; and they come in the order of the placements, as often as they are
/// written.
pub proof fn strangers_are_not_plugged_in(
    placements: Seq<Placement>,
    monitors: Monitors,
    placement: Placement,
)
    ensures
        forall|i: int|
            0 <= i < strangers(placements, monitors).len() ==> !plugged(
                monitors,
                #[trigger] strangers(placements, monitors)[i],
            ),
        forall|i: int|
            0 <= i < placements.len() && !plugged(monitors, (#[trigger] placements[i]).name@)
                ==> strangers(placements, monitors).contains(placements[i].name@),
        strangers(Seq::empty(), monitors).len() == 0,
        plugged(monitors, placement.name@) ==> strangers(placements.push(placement), monitors)
            == strangers(placements, monitors),
        !plugged(monitors, placement.name@) ==> strangers(placements.push(placement), monitors)
            == strangers(placements, monitors).push(placement.name@),
    decreases placements.len(),
{
    assert(placements.push(placement).drop_last() =~= placements);
    if placements.len() > 0 {
        let short = placements.drop_last();
        let before = strangers(short, monitors);
        let all = strangers(placements, monitors);
        strangers_are_not_plugged_in(short, monitors, placement);
        assert forall|i: int| 0 <= i < all.len() implies !plugged(monitors, #[trigger] all[i]) by {
            if i < before.len() {
                assert(all[i] == before[i]);
            }
        }
        assert forall|i: int|
            0 <= i < placements.len() && !plugged(monitors, (#[trigger] placements[i]).name@)
            implies all.contains(placements[i].name@) by {
            if i < short.len() {
                assert(short[i] == placements[i]);
                assert(before.contains(short[i].name@));
                let k = choose|k: int| 0 <= k < before.len() && before[k] == short[i].name@;
                assert(all[k] == before[k]);
            } else {
                assert(all[before.len() as int] == placements[i].name@);
            }
        }
    }
}

/// A layout fits where every place in it is a coordinate.
pub proof fn a_layout_that_fits(spots: Spots)
    ensures
        fits(spots) <==> forall|i: int|
            0 <= i < spots.len() ==> (#[trigger] spots[i] matches Some((x, y)) ==> -0x8000_0000
                <= x <= 0x7fff_ffff && -0x8000_0000 <= y <= 0x7fff_ffff),
{
}

/// The edge is where something ends.
proof fn the_edge_is_the_end_of_something(monitors: Monitors, spots: Spots, n: nat)
    requires
        n <= monitors.len(),
        spots.len() == monitors.len(),
        edge_to(monitors, spots, n) is Some,
    ensures
        exists|k: int|
            0 <= k < n && (#[trigger] spots[k]) is Some && edge_to(monitors, spots, n)
                == Some(spots[k]->Some_0.0 + monitors[k].1.w),
    decreases n,
{
    if n > 0 {
        let last = n - 1;
        if edge_to(monitors, spots, last as nat) is Some {
            the_edge_is_the_end_of_something(monitors, spots, last as nat);
        }
        if spots[last] is Some {
            assert(spots[last] is Some);
        }
    }
}

impl Arrangement {
    /// A monitor that nothing was said of, where all others were told outright
    /// where to go, is right against one of them: no pixel lies between.
    pub proof fn the_rest_goes_against_the_last(self, monitors: Monitors, i: int)
        requires
            0 <= i < monitors.len(),
            monitors.len() > 1,
            self.fixed_at(monitors[i].0@) is None,
            self.beside_of(monitors[i].0@) is None,
            forall|k: int|
                0 <= k < monitors.len() && k != i ==> self.fixed_at(
                    (#[trigger] monitors[k]).0@,
                ) is Some,
        ensures
            exists|k: int|
                {
                    &&& 0 <= k < monitors.len()
                    &&& k != i
                    &&& self.layout(monitors).0[i] == Some(
                        (
                            (#[trigger] self.layout(monitors).0[k])->Some_0.0 + monitors[k].1.w,
                            0int,
                        ),
                    )
                },
    {
        let fixed = self.fixed(monitors);
        assert forall|k: int| 0 <= k < monitors.len() && k != i implies fixed[k] is Some by {
            assert(self.fixed_at(monitors[k].0@) is Some);
        }
        assert(fixed[i] is None);
        assert forall|k: int| !self.ready(monitors, fixed, k) by {}
        assert(self.settled(monitors, fixed) == fixed);
        assert(self.is_seed(monitors, fixed, i));
        let j = choose|j: int| self.is_seed(monitors, fixed, j);
        assert(j == i);
        let at = (edge(monitors, fixed), 0int);
        let next = fixed.update(i, Some(at));
        assert(self.layout(monitors) == self.laid(monitors, next, Seq::empty()));
        self.laying_keeps(monitors, next, Seq::empty());
        let other = if i == 0 {
            1int
        } else {
            0
        };
        the_edge_is_past_everything(monitors, fixed, monitors.len(), other);
        the_edge_is_the_end_of_something(monitors, fixed, monitors.len());
        let k = choose|k: int|
            0 <= k < monitors.len() && (#[trigger] fixed[k]) is Some && edge_to(
                monitors,
                fixed,
                monitors.len(),
            ) == Some(fixed[k]->Some_0.0 + monitors[k].1.w);
        assert(k != i);
        assert(next[k] == fixed[k]);
        let spots = self.layout(monitors).0;
        assert(spots[k] == next[k]);
        assert(spots[i] == next[i]);
    }

    /// A monitor is waited for where another was said to go beside its name, and
    /// what was said of a name that is not plugged in leads nowhere.
    pub proof fn who_is_waited_for(self, monitors: Monitors, i: int, n: nat)
        requires
            0 <= i < monitors.len(),
        ensures
            self.wanted(monitors, i) <==> exists|k: int|
                0 <= k < monitors.len() && (#[trigger] self.beside_of(monitors[k].0@)) is Some
                    && self.beside_of(monitors[k].0@)->Some_0.1 == monitors[i].0@,
            self.beside_of(monitors[i].0@) is None ==> self.anchor_of(monitors, i) is None,
            self.beside_of(monitors[i].0@) matches Some((_, name, _)) && !plugged(monitors, name)
                ==> self.anchor_of(monitors, i) is None,
            self.anchor_of(monitors, i) matches Some(k) ==> monitors[k].0@ == self.beside_of(
                monitors[i].0@,
            )->Some_0.1,
            self.followed(monitors, i, 0) == Some(i),
            self.followed(monitors, i, n + 1) == match self.followed(monitors, i, n) {
                Some(k) => self.anchor_of(monitors, k),
                None => None,
            },
            self.in_a_circle(monitors, i) <==> exists|steps: nat|
                1 <= steps <= monitors.len() && (#[trigger] self.followed(
                    monitors,
                    i,
                    steps,
                )) is Some && monitors[self.followed(monitors, i, steps)->0].0@ == monitors[i].0@,
    {
        if let Some((_, name, _)) = self.beside_of(monitors[i].0@) {
            first_named_is_first(monitors, name);
        }
        if self.in_a_circle(monitors, i) {
            let steps = choose|steps: nat|
                1 <= steps <= monitors.len() && #[trigger] self.comes_back(monitors, i, steps);
            assert(self.followed(monitors, i, steps) is Some);
        }
        if exists|steps: nat|
            1 <= steps <= monitors.len() && (#[trigger] self.followed(monitors, i, steps)) is Some
                && monitors[self.followed(monitors, i, steps)->0].0@ == monitors[i].0@ {
            let steps = choose|steps: nat|
                1 <= steps <= monitors.len() && (#[trigger] self.followed(
                    monitors,
                    i,
                    steps,
                )) is Some && monitors[self.followed(monitors, i, steps)->0].0@ == monitors[i].0@;
            assert(self.comes_back(monitors, i, steps));
        }
    }

    /// A monitor whose name no other has is reported only where it cannot be beside
    /// what it was said to be beside.
    pub proof fn the_reported_cannot_be_there(self, monitors: Monitors, i: int)
        requires
            0 <= i < monitors.len(),
            forall|k: int|
                0 <= k < monitors.len() && k != i ==> (#[trigger] monitors[k]).0@
                    != monitors[i].0@,
            self.layout(monitors).1.contains(monitors[i].0@),
        ensures
            self.beside_of(monitors[i].0@) is Some,
            self.anchor_of(monitors, i) is None || self.in_a_circle(monitors, i),
    {
        self.only_the_misplaced_are_reported(monitors, monitors[i].0@);
    }
}

/// A name is plugged in where a monitor has it.
pub proof fn what_is_plugged_in(monitors: Monitors, name: Seq<char>, unresolved: Seq<String>)
    ensures
        plugged(monitors, name) <==> exists|i: int|
            0 <= i < monitors.len() && (#[trigger] monitors[i]).0@ == name,
        names_of(unresolved).len() == unresolved.len(),
        forall|i: int|
            0 <= i < unresolved.len() ==> (#[trigger] names_of(unresolved)[i]) == unresolved[i]@,
{
}

impl Arrangement {
    /// Whether a monitor of a name has a place at the top.
    spec fn at_the_top(self, monitors: Monitors, spots: Spots, name: Seq<char>) -> bool {
        exists|j: int|
            {
                &&& 0 <= j < monitors.len()
                &&& (#[trigger] monitors[j]).0@ == name
                &&& self.fixed_at(name) is None
                &&& spots[j] is Some
                &&& spots[j]->Some_0.1 == 0
            }
    }

    proof fn laying_reports_what_it_puts_down(
        self,
        monitors: Monitors,
        spots: Spots,
        lost: Seq<Seq<char>>,
    )
        requires
            spots.len() == monitors.len(),
            keeps(self.fixed(monitors), spots),
            forall|i: int|
                0 <= i < lost.len() ==> self.at_the_top(monitors, spots, #[trigger] lost[i]),
        ensures
            ({
                let (done, reported) = self.laid(monitors, spots, lost);
                forall|i: int|
                    0 <= i < reported.len() ==> self.at_the_top(
                        monitors,
                        done,
                        #[trigger] reported[i],
                    )
            }),
        decreases unplaced(spots),
    {
        let now = self.settled(monitors, spots);
        self.settling_keeps(monitors, spots);
        assert forall|i: int| 0 <= i < lost.len() implies self.at_the_top(
            monitors,
            now,
            #[trigger] lost[i],
        ) by {
            assert(self.at_the_top(monitors, spots, lost[i]));
            let j = choose|j: int|
                {
                    &&& 0 <= j < monitors.len()
                    &&& (#[trigger] monitors[j]).0@ == lost[i]
                    &&& self.fixed_at(lost[i]) is None
                    &&& spots[j] is Some
                    &&& spots[j]->Some_0.1 == 0
                };
            assert(now[j] == spots[j]);
        }
        if exists|j: int| self.is_seed(monitors, now, j) {
            let j = choose|j: int| self.is_seed(monitors, now, j);
            let at = (edge(monitors, now), 0int);
            let next = now.update(j, Some(at));
            let name = monitors[j].0@;
            let more = if self.beside_of(name) is Some {
                lost.push(name)
            } else {
                lost
            };
            placing_one_leaves_one_fewer(now, j, at);
            assert(keeps(self.fixed(monitors), next)) by {
                assert forall|k: int|
                    0 <= k < monitors.len() && self.fixed(monitors)[k] is Some implies next[k]
                    == self.fixed(monitors)[k] by {
                    assert(spots[k] == self.fixed(monitors)[k]);
                    assert(now[k] == spots[k]);
                }
            }
            assert(self.fixed_at(name) is None) by {
                if self.fixed_at(name) is Some {
                    assert(self.fixed(monitors)[j] is Some);
                    assert(spots[j] == self.fixed(monitors)[j]);
                    assert(now[j] == spots[j]);
                }
            }
            assert forall|i: int| 0 <= i < more.len() implies self.at_the_top(
                monitors,
                next,
                #[trigger] more[i],
            ) by {
                if i < lost.len() {
                    assert(self.at_the_top(monitors, now, lost[i]));
                    let k = choose|k: int|
                        {
                            &&& 0 <= k < monitors.len()
                            &&& (#[trigger] monitors[k]).0@ == lost[i]
                            &&& self.fixed_at(lost[i]) is None
                            &&& now[k] is Some
                            &&& now[k]->Some_0.1 == 0
                        };
                    assert(next[k] == now[k]);
                } else {
                    assert(monitors[j].0@ == name);
                }
            }
            self.laying_reports_what_it_puts_down(monitors, next, more);
            assert(self.laid(monitors, spots, lost) == self.laid(monitors, next, more));
        } else {
            assert(self.laid(monitors, spots, lost) == (now, lost));
        }
    }

    /// What is reported was put down for want of a place to go: at the top, and not
    /// where it was told outright to go.
    pub proof fn the_reported_are_put_down_at_the_top(self, monitors: Monitors, name: Seq<char>)
        requires
            self.layout(monitors).1.contains(name),
        ensures
            self.fixed_at(name) is None,
            exists|i: int|
                {
                    &&& 0 <= i < monitors.len()
                    &&& (#[trigger] monitors[i]).0@ == name
                    &&& self.layout(monitors).0[i] is Some
                    &&& self.layout(monitors).0[i]->Some_0.1 == 0
                },
    {
        self.laying_reports_what_it_puts_down(monitors, self.fixed(monitors), Seq::empty());
        let (spots, reported) = self.layout(monitors);
        let k = choose|k: int| 0 <= k < reported.len() && reported[k] == name;
        assert(self.at_the_top(monitors, spots, reported[k]));
    }
}

impl Arrangement {
    /// Others begin at a monitor that one of them waits for and that waits for none
    /// that is there, or waits for itself in the end.
    pub proof fn where_others_begin(self, monitors: Monitors, i: int, k: int)
        requires
            0 <= i < monitors.len(),
            0 <= k < monitors.len(),
        ensures
            self.anchor_of(monitors, k) == Some(i) && self.anchor_of(monitors, i) is None
                ==> self.is_foot(monitors, i),
            self.anchor_of(monitors, k) == Some(i) && self.in_a_circle(monitors, i)
                ==> self.is_foot(monitors, i),
            self.anchor_of(monitors, i) is Some && !self.in_a_circle(monitors, i)
                ==> !self.is_foot(monitors, i),
            (forall|j: int|
                0 <= j < monitors.len() ==> !(#[trigger] self.beside_of(monitors[j].0@) matches Some(
                    (_, anchor, _),
                ) && anchor == monitors[i].0@)) ==> !self.is_foot(monitors, i),
    {
        if let Some((_, name, _)) = self.beside_of(monitors[k].0@) {
            first_named_is_first(monitors, name);
        }
    }
}

impl Arrangement {
    /// Whether the monitors of some names have places from left to right, each past
    /// the end of the one before it.
    spec fn left_to_right(self, monitors: Monitors, spots: Spots, names: Seq<Seq<char>>) -> bool {
        forall|a: int, b: int, i: int, j: int|
            #![trigger names[a], names[b], monitors[i], monitors[j]]
            0 <= a < b < names.len() && 0 <= i < monitors.len() && 0 <= j < monitors.len()
                && monitors[i].0@ == names[a] && monitors[j].0@ == names[b] ==> {
                &&& spots[i] is Some
                &&& spots[j] is Some
                &&& spots[i]->Some_0.0 + monitors[i].1.w <= spots[j]->Some_0.0
            }
    }

    /// Whether every monitor of some names has a place.
    spec fn all_placed(self, monitors: Monitors, spots: Spots, names: Seq<Seq<char>>) -> bool {
        forall|a: int, i: int|
            #![trigger names[a], monitors[i]]
            0 <= a < names.len() && 0 <= i < monitors.len() && monitors[i].0@ == names[a]
                ==> spots[i] is Some
    }

    proof fn laying_reports_from_left_to_right(
        self,
        monitors: Monitors,
        spots: Spots,
        lost: Seq<Seq<char>>,
    )
        requires
            spots.len() == monitors.len(),
            forall|i: int, j: int|
                0 <= i < j < monitors.len() ==> (#[trigger] monitors[i]).0@ != (
                #[trigger] monitors[j]).0@,
            self.left_to_right(monitors, spots, lost),
            self.all_placed(monitors, spots, lost),
        ensures
            ({
                let (done, reported) = self.laid(monitors, spots, lost);
                self.left_to_right(monitors, done, reported)
            }),
        decreases unplaced(spots),
    {
        let now = self.settled(monitors, spots);
        self.settling_keeps(monitors, spots);
        assert(self.all_placed(monitors, now, lost)) by {
            assert forall|a: int, i: int|
                #![trigger lost[a], monitors[i]]
                0 <= a < lost.len() && 0 <= i < monitors.len() && monitors[i].0@
                    == lost[a] implies now[i] is Some by {
                assert(spots[i] is Some);
                assert(now[i] == spots[i]);
            }
        }
        assert(self.left_to_right(monitors, now, lost)) by {
            assert forall|a: int, b: int, i: int, j: int|
                #![trigger lost[a], lost[b], monitors[i], monitors[j]]
                0 <= a < b < lost.len() && 0 <= i < monitors.len() && 0 <= j < monitors.len()
                    && monitors[i].0@ == lost[a] && monitors[j].0@ == lost[b] implies {
                &&& now[i] is Some
                &&& now[j] is Some
                &&& now[i]->Some_0.0 + monitors[i].1.w <= now[j]->Some_0.0
            } by {
                assert(spots[i] is Some && spots[j] is Some);
                assert(now[i] == spots[i] && now[j] == spots[j]);
            }
        }
        if exists|s: int| self.is_seed(monitors, now, s) {
            let s = choose|s: int| self.is_seed(monitors, now, s);
            let at = (edge(monitors, now), 0int);
            let next = now.update(s, Some(at));
            let name = monitors[s].0@;
            let more = if self.beside_of(name) is Some {
                lost.push(name)
            } else {
                lost
            };
            placing_one_leaves_one_fewer(now, s, at);
            assert(self.all_placed(monitors, next, more)) by {
                assert forall|a: int, i: int|
                    #![trigger more[a], monitors[i]]
                    0 <= a < more.len() && 0 <= i < monitors.len() && monitors[i].0@
                        == more[a] implies next[i] is Some by {
                    if a < lost.len() {
                        assert(more[a] == lost[a]);
                        assert(now[i] is Some);
                    } else if i != s {
                        if i < s {
                            assert(monitors[i].0@ != monitors[s].0@);
                        } else {
                            assert(monitors[s].0@ != monitors[i].0@);
                        }
                    }
                }
            }
            assert(self.left_to_right(monitors, next, more)) by {
                assert forall|a: int, b: int, i: int, j: int|
                    #![trigger more[a], more[b], monitors[i], monitors[j]]
                    0 <= a < b < more.len() && 0 <= i < monitors.len() && 0 <= j < monitors.len()
                        && monitors[i].0@ == more[a] && monitors[j].0@ == more[b] implies {
                    &&& next[i] is Some
                    &&& next[j] is Some
                    &&& next[i]->Some_0.0 + monitors[i].1.w <= next[j]->Some_0.0
                } by {
                    assert(more[a] == lost[a]);
                    assert(now[i] is Some);
                    assert(i != s);
                    if b < lost.len() {
                        assert(more[b] == lost[b]);
                        assert(now[j] is Some);
                        assert(j != s);
                    } else {
                        assert(j == s) by {
                            if j < s {
                                assert(monitors[j].0@ != monitors[s].0@);
                            } else if s < j {
                                assert(monitors[s].0@ != monitors[j].0@);
                            }
                        }
                        the_edge_is_past_everything(monitors, now, monitors.len(), i);
                    }
                }
            }
            self.laying_reports_from_left_to_right(monitors, next, more);
            assert(self.laid(monitors, spots, lost) == self.laid(monitors, next, more));
        } else {
            assert(self.laid(monitors, spots, lost) == (now, lost));
        }
    }

    /// The reported are told of in the order they were put down in, which is from
    /// left to right, none over another: `a` and `b` are two of them, and `i` and `j`
    /// the monitors they are.
    pub proof fn the_reported_go_from_left_to_right(
        self,
        monitors: Monitors,
        a: int,
        b: int,
        i: int,
        j: int,
    )
        requires
            forall|k: int, n: int|
                0 <= k < n < monitors.len() ==> (#[trigger] monitors[k]).0@ != (
                #[trigger] monitors[n]).0@,
            0 <= a < b < self.layout(monitors).1.len(),
            0 <= i < monitors.len(),
            0 <= j < monitors.len(),
            monitors[i].0@ == self.layout(monitors).1[a],
            monitors[j].0@ == self.layout(monitors).1[b],
        ensures
            monitors[i].1.w > 0 ==> i != j,
            self.layout(monitors).0[i] is Some,
            self.layout(monitors).0[j] is Some,
            self.layout(monitors).0[i]->Some_0.0 + monitors[i].1.w <= self.layout(
                monitors,
            ).0[j]->Some_0.0,
    {
        self.laying_reports_from_left_to_right(monitors, self.fixed(monitors), Seq::empty());
    }
}

impl Arrangement {
    /// Whether nothing was said of where monitor `i` goes.
    spec fn unsaid(self, monitors: Monitors, i: int) -> bool {
        self.fixed_at(monitors[i].0@) is None && self.beside_of(monitors[i].0@) is None
    }

    /// Whether monitor `i` is put down before monitor `j`: others begin at it and not
    /// at the other, or it only comes first.
    spec fn comes_before(self, monitors: Monitors, i: int, j: int) -> bool {
        if self.is_foot(monitors, i) == self.is_foot(monitors, j) {
            i < j
        } else {
            self.is_foot(monitors, i)
        }
    }

    /// Whether monitor `j` has no place or has one to the right of monitor `i`.
    spec fn is_right_of(self, monitors: Monitors, spots: Spots, i: int, j: int) -> bool {
        spots[j] is Some ==> spots[i] is Some && spots[i]->Some_0.0 + monitors[i].1.w
            <= spots[j]->Some_0.0
    }

    proof fn laying_goes_in_order(
        self,
        monitors: Monitors,
        spots: Spots,
        lost: Seq<Seq<char>>,
        i: int,
        j: int,
    )
        requires
            spots.len() == monitors.len(),
            0 <= i < monitors.len(),
            0 <= j < monitors.len(),
            self.unsaid(monitors, i),
            self.unsaid(monitors, j),
            self.comes_before(monitors, i, j),
            self.is_right_of(monitors, spots, i, j),
        ensures
            self.is_right_of(monitors, self.laid(monitors, spots, lost).0, i, j),
        decreases unplaced(spots),
    {
        let now = self.settled(monitors, spots);
        self.settling_keeps(monitors, spots);
        self.settling_leaves_the_rest(monitors, spots, i);
        self.settling_leaves_the_rest(monitors, spots, j);
        if exists|s: int| self.is_seed(monitors, now, s) {
            let s = choose|s: int| self.is_seed(monitors, now, s);
            let at = (edge(monitors, now), 0int);
            let next = now.update(s, Some(at));
            let name = monitors[s].0@;
            let more = if self.beside_of(name) is Some {
                lost.push(name)
            } else {
                lost
            };
            placing_one_leaves_one_fewer(now, s, at);
            if s == j {
                assert(now[i] is Some);
                the_edge_is_past_everything(monitors, now, monitors.len(), i);
            }
            self.laying_goes_in_order(monitors, next, more, i, j);
            assert(self.laid(monitors, spots, lost) == self.laid(monitors, next, more));
        } else {
            assert(self.laid(monitors, spots, lost) == (now, lost));
        }
    }

    /// What nothing was said of goes from left to right, none over another: first
    /// those that others begin at, and then the rest, each in the order they come.
    pub proof fn what_nothing_was_said_of_goes_in_order(self, monitors: Monitors, i: int, j: int)
        requires
            0 <= i < monitors.len(),
            0 <= j < monitors.len(),
            i != j,
            self.fixed_at(monitors[i].0@) is None,
            self.beside_of(monitors[i].0@) is None,
            self.fixed_at(monitors[j].0@) is None,
            self.beside_of(monitors[j].0@) is None,
        ensures
            ({
                let spots = self.layout(monitors).0;
                let first = if self.is_foot(monitors, i) == self.is_foot(monitors, j) {
                    i < j
                } else {
                    self.is_foot(monitors, i)
                };
                &&& first ==> spots[i]->Some_0.0 + monitors[i].1.w <= spots[j]->Some_0.0
                &&& !first ==> spots[j]->Some_0.0 + monitors[j].1.w <= spots[i]->Some_0.0
            }),
    {
        let fixed = self.fixed(monitors);
        self.every_monitor_has_a_place(monitors);
        if self.comes_before(monitors, i, j) {
            self.laying_goes_in_order(monitors, fixed, Seq::empty(), i, j);
        } else {
            self.laying_goes_in_order(monitors, fixed, Seq::empty(), j, i);
        }
    }
}

} // verus!
