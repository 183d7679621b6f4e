//! Windows drawn through a fragment program: which of the effects a style
//! declares is run, and what of such a window still hides what is behind it.

use crate::geometry::{larger, max, min, minus, nearest_coordinate, plus, Point, Rect, Size};
use vstd::prelude::*;

verus! {

/// What an effect reads.
#[derive(Clone, Copy, Debug, PartialEq, Eq, Structural)]
pub enum Inputs {
    /// Nothing: it is an element like any other.
    Nothing,
    /// The window's own pixels.
    SelfTexture,
    /// What is composited beneath the window.
    Backdrop,
}

/// A radius for each corner of a window, in pixels, as the bits of doubles.
#[derive(Clone, Copy, Debug, PartialEq, Eq, Structural)]
pub struct Corners {
    pub top_left: u64,
    pub top_right: u64,
    pub bottom_left: u64,
    pub bottom_right: u64,
}

/// An effect that a style declares.
#[derive(Clone, Copy, Debug, PartialEq, Eq, Structural)]
pub struct Effect {
    pub inputs: Inputs,
    /// Whether it changes nothing.
    pub none: bool,
    pub radii: Corners,
}

/// Whether an effect has to be run over a texture of the window.
pub open spec fn wants_pass(effect: Effect) -> bool {
    !effect.none && effect.inputs == Inputs::SelfTexture
}

/// Whether an effect cannot be run at all.
pub open spec fn is_refused(effect: Effect) -> bool {
    !effect.none && effect.inputs == Inputs::Backdrop
}

/// The effect to run over a texture of the window, if there is one: the first
/// declared that reads the window's own pixels and changes anything.
pub fn needs_pass(effects: &[Effect]) -> (r: Option<Effect>)
    ensures
        match r {
            Some(effect) => exists|i: int|
                {
                    &&& 0 <= i < effects.len()
                    &&& #[trigger] effects@[i] == effect
                    &&& wants_pass(effect)
                    &&& forall|k: int| 0 <= k < i ==> !wants_pass(#[trigger] effects@[k])
                },
            None => forall|k: int| 0 <= k < effects.len() ==> !wants_pass(#[trigger] effects@[k]),
        },
{
    let mut i: usize = 0;
    while i < effects.len()
        invariant
            i <= effects.len(),
            forall|k: int| 0 <= k < i ==> !wants_pass(#[trigger] effects@[k]),
        decreases effects.len() - i,
    {
        let effect = effects[i];
        if !effect.none {
            match effect.inputs {
                Inputs::SelfTexture => {
                    assert(effects@[i as int] == effect);
                    return Some(effect);
                },
                Inputs::Nothing | Inputs::Backdrop => {},
            }
        }
        i = i + 1;
    }
    None
}

/// Whether an effect that reads this can be run. Nothing composites a
/// backdrop.
pub fn runnable(inputs: Inputs) -> (r: bool)
    ensures
        r == (inputs != Inputs::Backdrop),
{
    match inputs {
        Inputs::Nothing | Inputs::SelfTexture => true,
        Inputs::Backdrop => false,
    }
}

/// The first effect declared that cannot be run.
pub fn refused(effects: &[Effect]) -> (r: Option<Effect>)
    ensures
        match r {
            Some(effect) => exists|i: int|
                {
                    &&& 0 <= i < effects.len()
                    &&& #[trigger] effects@[i] == effect
                    &&& is_refused(effect)
                    &&& forall|k: int| 0 <= k < i ==> !is_refused(#[trigger] effects@[k])
                },
            None => forall|k: int| 0 <= k < effects.len() ==> !is_refused(#[trigger] effects@[k]),
        },
{
    let mut i: usize = 0;
    while i < effects.len()
        invariant
            i <= effects.len(),
            forall|k: int| 0 <= k < i ==> !is_refused(#[trigger] effects@[k]),
        decreases effects.len() - i,
    {
        let effect = effects[i];
        if !effect.none && !runnable(effect.inputs) {
            assert(effects@[i as int] == effect);
            return Some(effect);
        }
        i = i + 1;
    }
    None
}

/// How far in from each side something is, in whole pixels.
#[derive(Clone, Copy, Debug, PartialEq, Eq, Structural)]
pub struct Sides {
    pub top: i32,
    pub right: i32,
    pub bottom: i32,
    pub left: i32,
}

/// How far in from each side something is: what would be past a side is at it.
pub open spec fn inwards(sides: Sides) -> Sides {
    Sides {
        top: larger(sides.top as int, 0) as i32,
        right: larger(sides.right as int, 0) as i32,
        bottom: larger(sides.bottom as int, 0) as i32,
        left: larger(sides.left as int, 0) as i32,
    }
}

/// A rectangle with its sides taken in, and never out: nothing is left of it
/// where they meet.
pub open spec fn taken_in(rect: Rect, sides: Sides) -> Rect {
    let sides = inwards(sides);
    Rect {
        loc: Point {
            x: nearest_coordinate(rect.loc.x + sides.left) as i32,
            y: nearest_coordinate(rect.loc.y + sides.top) as i32,
        },
        size: Size {
            w: larger(
                nearest_coordinate(rect.size.w - nearest_coordinate(sides.left + sides.right)),
                0,
            ) as i32,
            h: larger(
                nearest_coordinate(rect.size.h - nearest_coordinate(sides.top + sides.bottom)),
                0,
            ) as i32,
        },
    }
}

/// What of a rectangle is inside its corners: the rectangle with each side
/// taken in by the whole pixels its corners touch. A side that nothing touches
/// stays where it is.
pub fn opaque_inside(rect: Rect, sides: Sides) -> (inside: Rect)
    ensures
        inside == taken_in(rect, sides),
{
    let sides = Sides {
        top: max(sides.top, 0),
        right: max(sides.right, 0),
        bottom: max(sides.bottom, 0),
        left: max(sides.left, 0),
    };
    let w: i32 = max(minus(rect.size.w, plus(sides.left, sides.right)), 0);
    let h: i32 = max(minus(rect.size.h, plus(sides.top, sides.bottom)), 0);
    Rect {
        loc: Point { x: plus(rect.loc.x, sides.left), y: plus(rect.loc.y, sides.top) },
        size: Size { w, h },
    }
}

/// A rectangle moved by a place.
pub open spec fn moved(rect: Rect, by: Point) -> Rect {
    Rect {
        loc: Point {
            x: nearest_coordinate(rect.loc.x + by.x) as i32,
            y: nearest_coordinate(rect.loc.y + by.y) as i32,
        },
        size: rect.size,
    }
}

/// The regions an element says are opaque, moved to where it was drawn.
pub fn placed(loc: Point, regions: &[Rect]) -> (r: Vec<Rect>)
    ensures
        r.len() == regions.len(),
        forall|i: int| 0 <= i < r.len() ==> #[trigger] r@[i] == moved(regions@[i], loc),
{
    let mut r: Vec<Rect> = Vec::new();
    let mut i: usize = 0;
    while i < regions.len()
        invariant
            i <= regions.len(),
            r.len() == i,
            forall|k: int| 0 <= k < i ==> #[trigger] r@[k] == moved(regions@[k], loc),
        decreases regions.len() - i,
    {
        let region = regions[i];
        r.push(
            Rect {
                loc: Point { x: plus(region.loc.x, loc.x), y: plus(region.loc.y, loc.y) },
                size: region.size,
            },
        );
        i = i + 1;
    }
    r
}

/// Whether some rectangle has a pixel.
pub open spec fn covered(regions: Seq<Rect>, x: int, y: int) -> bool {
    exists|i: int| 0 <= i < regions.len() && (#[trigger] regions[i]).covers_pixel(x, y)
}

/// Whether every pixel of a size, from the origin, is in one of some regions.
pub open spec fn all_covered(size: Size, regions: Seq<Rect>) -> bool {
    forall|x: int, y: int|
        0 <= x < size.w && 0 <= y < size.h ==> #[trigger] covered(regions, x, y)
}

/// Whether a rectangle has pixels, and all of them are among those of a size
/// from the origin.
pub open spec fn is_part(rect: Rect, size: Size) -> bool {
    &&& rect.size.w > 0
    &&& rect.size.h > 0
    &&& rect.loc.x >= 0
    &&& rect.loc.y >= 0
    &&& rect.loc.x + rect.size.w <= size.w
    &&& rect.loc.y + rect.size.h <= size.h
}

/// Put what is left of a part without a region with the rest of what is left.
fn take_out(part: Rect, region: Rect, size: Ghost<Size>, left: &mut Vec<Rect>)
    requires
        is_part(part, size@),
        forall|i: int| 0 <= i < old(left).len() ==> is_part(#[trigger] old(left)@[i], size@),
    ensures
        forall|i: int| 0 <= i < final(left).len() ==> is_part(#[trigger] final(left)@[i], size@),
        forall|x: int, y: int| #[trigger]
            covered(final(left)@, x, y) == (covered(old(left)@, x, y) || (part.covers_pixel(x, y)
                && !region.covers_pixel(x, y))),
{
    let right: i32 = part.loc.x + part.size.w;
    let bottom: i32 = part.loc.y + part.size.h;
    let from_x: i32 = max(part.loc.x, region.loc.x);
    let from_y: i32 = max(part.loc.y, region.loc.y);
    let to_x: i32 = min(right, plus(region.loc.x, region.size.w));
    let to_y: i32 = min(bottom, plus(region.loc.y, region.size.h));
    let ghost before = left@;
    if from_x >= to_x || from_y >= to_y {
        left.push(part);
        proof {
            pushing_covers_more(before, part);
        }
        return ;
    }
    if from_y > part.loc.y {
        let above = Rect {
            loc: part.loc,
            size: Size { w: part.size.w, h: from_y - part.loc.y },
        };
        proof {
            pushing_covers_more(left@, above);
        }
        left.push(above);
    }
    if to_y < bottom {
        let below = Rect {
            loc: Point { x: part.loc.x, y: to_y },
            size: Size { w: part.size.w, h: bottom - to_y },
        };
        proof {
            pushing_covers_more(left@, below);
        }
        left.push(below);
    }
    if from_x > part.loc.x {
        let before = Rect {
            loc: Point { x: part.loc.x, y: from_y },
            size: Size { w: from_x - part.loc.x, h: to_y - from_y },
        };
        proof {
            pushing_covers_more(left@, before);
        }
        left.push(before);
    }
    if to_x < right {
        let behind = Rect {
            loc: Point { x: to_x, y: from_y },
            size: Size { w: right - to_x, h: to_y - from_y },
        };
        proof {
            pushing_covers_more(left@, behind);
        }
        left.push(behind);
    }
}

proof fn pushing_covers_more(regions: Seq<Rect>, one: Rect)
    ensures
        forall|x: int, y: int| #[trigger]
            covered(regions.push(one), x, y) == (covered(regions, x, y) || one.covers_pixel(x, y)),
{
    let more = regions.push(one);
    assert forall|x: int, y: int| #[trigger]
        covered(more, x, y) == (covered(regions, x, y) || one.covers_pixel(x, y)) by {
        if covered(regions, x, y) {
            let i = choose|i: int|
                0 <= i < regions.len() && (#[trigger] regions[i]).covers_pixel(x, y);
            assert(more[i].covers_pixel(x, y));
        }
        if one.covers_pixel(x, y) {
            assert(more[regions.len() as int].covers_pixel(x, y));
        }
        if covered(more, x, y) {
            let i = choose|i: int| 0 <= i < more.len() && (#[trigger] more[i]).covers_pixel(x, y);
            if i < regions.len() {
                assert(regions[i].covers_pixel(x, y));
            }
        }
    }
}

/// Whether a capture is opaque throughout: it has pixels, and every one of them
/// is in a region that is.
pub fn covers(size: Size, regions: &[Rect]) -> (r: bool)
    ensures
        r == (size.w > 0 && size.h > 0 && all_covered(size, regions@)),
{
    if size.w <= 0 || size.h <= 0 {
        return false;
    }
    let whole = Rect::from_size(size);
    let mut left: Vec<Rect> = Vec::new();
    left.push(whole);
    proof {
        pushing_covers_more(Seq::empty(), whole);
        assert(left@ =~= Seq::empty().push(whole));
    }
    let mut i: usize = 0;
    while i < regions.len()
        invariant
            i <= regions.len(),
            size.w > 0,
            size.h > 0,
            forall|k: int| 0 <= k < left.len() ==> is_part(#[trigger] left@[k], size),
            forall|x: int, y: int|
                0 <= x < size.w && 0 <= y < size.h ==> #[trigger] covered(left@, x, y) == !covered(
                    regions@.take(i as int),
                    x,
                    y,
                ),
        decreases regions.len() - i,
    {
        let region = regions[i];
        let mut rest: Vec<Rect> = Vec::new();
        let mut k: usize = 0;
        while k < left.len()
            invariant
                k <= left.len(),
                forall|j: int| 0 <= j < left.len() ==> is_part(#[trigger] left@[j], size),
                forall|j: int| 0 <= j < rest.len() ==> is_part(#[trigger] rest@[j], size),
                forall|x: int, y: int| #[trigger]
                    covered(rest@, x, y) == (covered(left@.take(k as int), x, y)
                        && !region.covers_pixel(x, y)),
            decreases left.len() - k,
        {
            proof {
                pushing_covers_more(left@.take(k as int), left@[k as int]);
                assert(left@.take(k as int).push(left@[k as int]) =~= left@.take(k + 1));
            }
            take_out(left[k], region, Ghost(size), &mut rest);
            k = k + 1;
        }
        proof {
            assert(left@.take(left.len() as int) =~= left@);
            pushing_covers_more(regions@.take(i as int), region);
            assert(regions@.take(i as int).push(region) =~= regions@.take(i + 1));
        }
        left = rest;
        i = i + 1;
    }
    proof {
        assert(regions@.take(regions.len() as int) =~= regions@);
        if left.len() > 0 {
            let x = left@[0].loc.x as int;
            let y = left@[0].loc.y as int;
            assert(is_part(left@[0], size));
            assert(left@[0].covers_pixel(x, y));
            assert(covered(left@, x, y));
            assert(!covered(regions@, x, y));
        } else {
            assert forall|x: int, y: int|
                0 <= x < size.w && 0 <= y < size.h implies #[trigger] covered(regions@, x, y) by {
                assert(!covered(left@, x, y));
            }
        }
    }
    left.len() == 0
}

/// The bits of the double 0.5.
pub const HALF: u64 = 0x3fe0_0000_0000_0000;

/// The bits of infinity, past which a double is not a number or is below zero.
pub const INFINITE: u64 = 0x7ff0_0000_0000_0000;

/// Whether a corner is cut by half a pixel or more. A radius that is not a
/// number cuts nothing.
pub open spec fn is_cut(radius: u64) -> bool {
    HALF <= radius <= INFINITE
}

/// Whether every corner is cut.
pub open spec fn all_cut(radii: Corners) -> bool {
    &&& is_cut(radii.top_left)
    &&& is_cut(radii.top_right)
    &&& is_cut(radii.bottom_left)
    &&& is_cut(radii.bottom_right)
}

fn cut(radius: u64) -> (r: bool)
    ensures
        r == is_cut(radius),
{
    HALF <= radius && radius <= INFINITE
}

/// Whether every corner is cut.
pub fn every_corner_is_cut(radii: Corners) -> (r: bool)
    ensures
        r == all_cut(radii),
{
    cut(radii.top_left) && cut(radii.top_right) && cut(radii.bottom_left) && cut(
        radii.bottom_right,
    )
}

/// The bits of the single 1.0.
pub const SOLID: u32 = 0x3f80_0000;

/// The bits of the single -0.0, with which those below zero begin.
pub const MINUS_ZERO: u32 = 0x8000_0000;

/// The bits of the single that is infinitely far below zero.
pub const MINUS_INFINITE: u32 = 0xff80_0000;

/// Whether an opacity, as the bits of a single, is less than whole.
pub open spec fn is_fading(alpha: u32) -> bool {
    alpha < SOLID || MINUS_ZERO <= alpha <= MINUS_INFINITE
}

/// What of a window drawn through a mask hides what is behind it, if anything
/// does, in the window's own coordinates.
///
/// Nothing of a window that was captured with holes in it, or that is fading,
/// or that has a corner the mask does not cut: the mask then blends where a
/// region that is claimed would not be blended.
pub open spec fn opaque_part(
    dst: Rect,
    sides: Sides,
    radii: Corners,
    alpha: u32,
    capture_opaque: bool,
) -> Option<Rect> {
    let region = taken_in(Rect { loc: Point { x: 0, y: 0 }, size: dst.size }, sides);
    if !capture_opaque || is_fading(alpha) || !all_cut(radii) || region.size.w == 0 || region.size.h
        == 0 {
        None
    } else {
        Some(region)
    }
}

/// What of a window drawn through a mask hides what is behind it. `sides` is
/// how far in its corners reach as they land on screen.
pub fn opaque_of(dst: Rect, sides: Sides, radii: Corners, alpha: u32, capture_opaque: bool) -> (r:
    Option<Rect>)
    ensures
        r == opaque_part(dst, sides, radii, alpha, capture_opaque),
{
    if !capture_opaque || alpha < SOLID || (MINUS_ZERO <= alpha && alpha <= MINUS_INFINITE)
        || !every_corner_is_cut(radii) {
        return None;
    }
    let region = opaque_inside(Rect::from_size(dst.size), sides);
    if region.size.w == 0 || region.size.h == 0 {
        None
    } else {
        Some(region)
    }
}

/// Where a window is on screen does not change what of it is opaque.
pub proof fn the_claim_is_relative_to_the_window(
    one: Rect,
    other: Rect,
    sides: Sides,
    radii: Corners,
    alpha: u32,
    capture_opaque: bool,
)
    requires
        one.size == other.size,
    ensures
        opaque_part(one, sides, radii, alpha, capture_opaque) == opaque_part(
            other,
            sides,
            radii,
            alpha,
            capture_opaque,
        ),
{
}

/// What is claimed to be opaque has pixels, and each is inside the window and
/// clear of its corners on every side.
pub proof fn the_claim_is_clear_of_the_corners(
    dst: Rect,
    sides: Sides,
    radii: Corners,
    alpha: u32,
    capture_opaque: bool,
)
    requires
        opaque_part(dst, sides, radii, alpha, capture_opaque) is Some,
    ensures
        ({
            let claim = opaque_part(dst, sides, radii, alpha, capture_opaque)->0;
            &&& claim.size.w > 0
            &&& claim.size.h > 0
            &&& claim.covers_pixel(claim.loc.x as int, claim.loc.y as int)
            &&& forall|x: int, y: int| #[trigger]
                claim.covers_pixel(x, y) ==> {
                    &&& 0 <= x < dst.size.w
                    &&& 0 <= y < dst.size.h
                    &&& sides.left <= x < dst.size.w - sides.right
                    &&& sides.top <= y < dst.size.h - sides.bottom
                }
        }),
{
}

/// Nothing is claimed of a window that was captured with holes in it, or that
/// is fading, or that has a corner the mask does not cut.
pub proof fn nothing_is_claimed_of_what_is_blended(
    dst: Rect,
    sides: Sides,
    radii: Corners,
    alpha: u32,
    capture_opaque: bool,
)
    requires
        !capture_opaque || is_fading(alpha) || !is_cut(radii.top_left) || !is_cut(radii.top_right)
            || !is_cut(radii.bottom_left) || !is_cut(radii.bottom_right),
    ensures
        opaque_part(dst, sides, radii, alpha, capture_opaque) is None,
{
}

/// The programs the compositor has made, and what it has complained of.
#[derive(Debug)]
pub struct Programs<P> {
    /// The one that rounds corners.
    pub rounded: Option<P>,
    /// Whether that one could not be made.
    pub rounded_failed: bool,
    /// Whether it has been said that an effect cannot be run.
    pub refused: bool,
}

impl<P> Default for Programs<P> {
    fn default() -> (programs: Self)
        ensures
            programs.rounded is None,
            !programs.rounded_failed,
            !programs.refused,
    {
        Programs { rounded: None, rounded_failed: false, refused: false }
    }
}

impl<P> Programs<P> {
    /// The program that rounds corners, made the first time it is wanted. One
    /// that could not be made is not tried again.
    pub fn rounded<E, F: FnOnce() -> Result<P, E>>(&mut self, make: F) -> (r: Option<&P>)
        requires
            old(self).rounded is None && !old(self).rounded_failed ==> call_requires(make, ()),
        ensures
            final(self).refused == old(self).refused,
            match r {
                Some(program) => final(self).rounded == Some(*program),
                None => final(self).rounded is None,
            },
            old(self).rounded is Some || old(self).rounded_failed ==> *final(self) == *old(self),
            old(self).rounded is None && !old(self).rounded_failed ==> exists|made: Result<P, E>|
                {
                    &&& #[trigger] call_ensures(make, (), made)
                    &&& final(self).rounded == match made {
                        Ok(program) => Some(program),
                        Err(_) => None,
                    }
                    &&& final(self).rounded_failed == (made is Err)
                },
    {
        if self.rounded.is_none() && !self.rounded_failed {
            match make() {
                Ok(program) => {
                    self.rounded = Some(program);
                },
                Err(_) => {
                    self.rounded_failed = true;
                },
            }
        }
        self.rounded.as_ref()
    }

    /// An effect cannot be run. Says whether that is news, which it is once,
    /// whichever effect it is.
    pub fn refuse(&mut self, _effect: Effect) -> (news: bool)
        ensures
            news == !old(self).refused,
            *final(self) == (Programs { refused: true, ..*old(self) }),
    {
        if self.refused {
            return false;
        }
        self.refused = true;
        true
    }
}

/// Which effects are run and which are refused goes by what they read: one that
/// reads the window's own pixels is run, one that reads what is beneath it is
/// refused, and one that changes nothing is neither.
pub proof fn what_an_effect_asks_for(effect: Effect)
    ensures
        effect.none ==> !wants_pass(effect) && !is_refused(effect),
        !effect.none && effect.inputs == Inputs::SelfTexture ==> wants_pass(effect) && !is_refused(
            effect,
        ),
        !effect.none && effect.inputs == Inputs::Backdrop ==> !wants_pass(effect) && is_refused(
            effect,
        ),
        effect.inputs == Inputs::Nothing ==> !wants_pass(effect) && !is_refused(effect),
{
}

/// A side that is taken in loses the pixels along it and no others, and one that
/// would be taken out stays: a pixel is left exactly where it is in from every
/// side by as much as that side is taken in.
pub proof fn what_is_left_when_sides_are_taken_in(rect: Rect, sides: Sides, x: int, y: int)
    requires
        rect.size.w >= 0,
        rect.size.h >= 0,
        rect.loc.x + rect.size.w <= 0x7fff_ffff,
        rect.loc.y + rect.size.h <= 0x7fff_ffff,
    ensures
        taken_in(rect, sides).covers_pixel(x, y) <==> {
            &&& rect.loc.x <= x < rect.loc.x + rect.size.w
            &&& rect.loc.y <= y < rect.loc.y + rect.size.h
            &&& rect.loc.x + sides.left <= x < rect.loc.x + rect.size.w - sides.right
            &&& rect.loc.y + sides.top <= y < rect.loc.y + rect.size.h - sides.bottom
        },
{
}

/// What is left of a rectangle with its sides taken in begins as far in as the
/// near sides are, and is as long as it was less both sides, or not at all.
pub proof fn how_long_what_is_left_is(rect: Rect, sides: Sides)
    ensures
        ({
            let left = larger(sides.left as int, 0);
            let right = larger(sides.right as int, 0);
            let top = larger(sides.top as int, 0);
            let bottom = larger(sides.bottom as int, 0);
            let inside = taken_in(rect, sides);
            &&& inside.loc.x == nearest_coordinate(rect.loc.x + left)
            &&& inside.loc.y == nearest_coordinate(rect.loc.y + top)
            &&& inside.size.w == larger(rect.size.w - left - right, 0)
            &&& inside.size.h == larger(rect.size.h - top - bottom, 0)
        }),
{
}

/// A rectangle that is moved has the pixels it had, each moved by as much.
pub proof fn moving_moves_every_pixel(rect: Rect, by: Point, x: int, y: int)
    requires
        -0x8000_0000 <= rect.loc.x + by.x,
        -0x8000_0000 <= rect.loc.y + by.y,
        rect.loc.x + by.x + rect.size.w <= 0x7fff_ffff,
        rect.loc.y + by.y + rect.size.h <= 0x7fff_ffff,
        rect.loc.x + rect.size.w <= 0x7fff_ffff,
        rect.loc.y + rect.size.h <= 0x7fff_ffff,
        rect.size.w >= 0,
        rect.size.h >= 0,
    ensures
        moved(rect, by).covers_pixel(x + by.x, y + by.y) == rect.covers_pixel(x, y),
        moved(rect, by).size == rect.size,
        moved(rect, Point { x: 0, y: 0 }) == rect,
{
}

/// A rectangle that is moved keeps to the coordinates.
pub proof fn a_moved_rectangle_keeps_to_the_coordinates(rect: Rect, by: Point)
    ensures
        moved(rect, by).loc.x == nearest_coordinate(rect.loc.x + by.x),
        moved(rect, by).loc.y == nearest_coordinate(rect.loc.y + by.y),
        moved(rect, by).size.w == rect.size.w,
        moved(rect, by).size.h == rect.size.h,
{
}

/// A size is covered where there is no pixel in it that every region leaves out.
pub proof fn covered_leaves_no_pixel_out(size: Size, regions: Seq<Rect>)
    ensures
        all_covered(size, regions) <==> !exists|x: int, y: int|
            0 <= x < size.w && 0 <= y < size.h && #[trigger] left_out(regions, x, y),
        all_covered(size, regions) && size.w > 0 && size.h > 0 ==> regions.len() > 0,
        all_covered(size, seq![Rect { loc: Point { x: 0, y: 0 }, size }]),
{
    if !all_covered(size, regions) {
        let (x, y) = choose|x: int, y: int|
            0 <= x < size.w && 0 <= y < size.h && !#[trigger] covered(regions, x, y);
        assert(left_out(regions, x, y));
    }
    assert forall|x: int, y: int|
        0 <= x < size.w && 0 <= y < size.h && all_covered(size, regions) implies !#[trigger] left_out(
        regions,
        x,
        y,
    ) by {
        assert(covered(regions, x, y));
    }
    if size.w > 0 && size.h > 0 && all_covered(size, regions) {
        assert(covered(regions, 0, 0));
    }
    let whole = Rect { loc: Point { x: 0, y: 0 }, size };
    assert forall|x: int, y: int|
        0 <= x < size.w && 0 <= y < size.h implies #[trigger] covered(seq![whole], x, y) by {
        assert(seq![whole][0].covers_pixel(x, y));
    }
}

/// Whether a pixel is before or past every one of some regions.
pub open spec fn left_out(regions: Seq<Rect>, x: int, y: int) -> bool {
    forall|i: int|
        0 <= i < regions.len() ==> {
            ||| x < (#[trigger] regions[i]).loc.x
            ||| x >= regions[i].right()
            ||| y < regions[i].loc.y
            ||| y >= regions[i].bottom()
        }
}

/// A corner is cut by a radius from a half up to infinity, and an opacity is less
/// than whole below one, on either side of zero.
pub proof fn what_counts_as_cut_and_as_fading(radius: u64, alpha: u32)
    ensures
        is_cut(radius) <==> 1022 * 0x10_0000_0000_0000 <= radius <= 2047 * 0x10_0000_0000_0000,
        is_fading(alpha) <==> alpha < 127 * 0x80_0000 || 0x8000_0000 <= alpha <= 0x8000_0000 + 255
            * 0x80_0000,
{
}

/// What of a window drawn through a mask hides what is behind it: of one that was
/// captured without holes, is not fading and has every corner cut, every pixel
/// that is clear of the corners on all sides, and only those; where there are
/// none, and of any other window, nothing.
pub proof fn all_that_is_clear_is_claimed(
    dst: Rect,
    sides: Sides,
    radii: Corners,
    alpha: u32,
    capture_opaque: bool,
    x: int,
    y: int,
)
    ensures
        opaque_part(dst, sides, radii, alpha, capture_opaque) is Some && opaque_part(
            dst,
            sides,
            radii,
            alpha,
            capture_opaque,
        )->0.covers_pixel(x, y) <==> {
            &&& capture_opaque
            &&& !is_fading(alpha)
            &&& is_cut(radii.top_left) && is_cut(radii.top_right)
            &&& is_cut(radii.bottom_left) && is_cut(radii.bottom_right)
            &&& 0 <= x < dst.size.w && sides.left <= x < dst.size.w - sides.right
            &&& 0 <= y < dst.size.h && sides.top <= y < dst.size.h - sides.bottom
        },
{
}

} // verus!
