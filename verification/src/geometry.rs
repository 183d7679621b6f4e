//! Points, sizes and rectangles on the desktop, in whole logical pixels.

use vstd::prelude::*;

verus! {

/// A place on the desktop.
#[derive(Clone, Copy, Debug, PartialEq, Eq, Structural)]
pub struct Point {
    pub x: i32,
    pub y: i32,
}

/// How wide and how tall something is.
#[derive(Clone, Copy, Debug, PartialEq, Eq, Structural)]
pub struct Size {
    pub w: i32,
    pub h: i32,
}

/// A rectangle: its top-left corner and its size.
#[derive(Clone, Copy, Debug, PartialEq, Eq, Structural)]
pub struct Rect {
    pub loc: Point,
    pub size: Size,
}

/// The nearest coordinate to a number that may not be one.
pub open spec fn nearest_coordinate(v: int) -> int {
    if v < i32::MIN {
        i32::MIN as int
    } else if v > i32::MAX {
        i32::MAX as int
    } else {
        v
    }
}

/// Whether a number is a coordinate as it stands.
pub open spec fn is_coordinate(v: int) -> bool {
    i32::MIN <= v <= i32::MAX
}

/// `a + b`, held to the range of a coordinate.
pub fn plus(a: i32, b: i32) -> (r: i32)
    ensures
        r == nearest_coordinate(a + b),
{
    narrow(a as i64 + b as i64)
}

/// `a - b`, held to the range of a coordinate.
pub fn minus(a: i32, b: i32) -> (r: i32)
    ensures
        r == nearest_coordinate(a - b),
{
    narrow(a as i64 - b as i64)
}

/// A number held to the range of a coordinate.
pub fn narrow(v: i64) -> (r: i32)
    ensures
        r == nearest_coordinate(v as int),
{
    if v < i32::MIN as i64 {
        i32::MIN
    } else if v > i32::MAX as i64 {
        i32::MAX
    } else {
        v as i32
    }
}

/// The larger of two numbers.
pub open spec fn larger(a: int, b: int) -> int {
    if a >= b {
        a
    } else {
        b
    }
}

/// The smaller of two numbers.
pub open spec fn smaller(a: int, b: int) -> int {
    if a <= b {
        a
    } else {
        b
    }
}

/// The larger of two coordinates.
pub fn max(a: i32, b: i32) -> (r: i32)
    ensures
        r == larger(a as int, b as int),
{
    if a >= b {
        a
    } else {
        b
    }
}

/// The smaller of two coordinates.
pub fn min(a: i32, b: i32) -> (r: i32)
    ensures
        r == smaller(a as int, b as int),
{
    if a <= b {
        a
    } else {
        b
    }
}

impl Point {
    pub fn new(x: i32, y: i32) -> (p: Self)
        ensures
            p.x == x,
            p.y == y,
    {
        Self { x, y }
    }

    /// This place as another origin sees it.
    pub fn from_origin(self, origin: Point) -> (p: Self)
        ensures
            p.x == nearest_coordinate(self.x - origin.x),
            p.y == nearest_coordinate(self.y - origin.y),
    {
        Self { x: minus(self.x, origin.x), y: minus(self.y, origin.y) }
    }
}

impl Size {
    pub fn new(w: i32, h: i32) -> (s: Self)
        ensures
            s.w == w,
            s.h == h,
    {
        Self { w, h }
    }
}

impl Rect {
    pub fn new(x: i32, y: i32, w: i32, h: i32) -> (r: Self)
        ensures
            r.loc.x == x,
            r.loc.y == y,
            r.size.w == w,
            r.size.h == h,
    {
        Self { loc: Point { x, y }, size: Size { w, h } }
    }

    /// A rectangle of a size, at the origin.
    pub fn from_size(size: Size) -> (r: Self)
        ensures
            r.loc == (Point { x: 0, y: 0 }),
            r.size == size,
    {
        Self { loc: Point { x: 0, y: 0 }, size }
    }

    /// The first column past the rectangle.
    pub open spec fn right(self) -> int {
        nearest_coordinate(self.loc.x + self.size.w)
    }

    /// The first row past the rectangle.
    pub open spec fn bottom(self) -> int {
        nearest_coordinate(self.loc.y + self.size.h)
    }

    /// Whether the pixel at `x`, `y` is inside.
    pub open spec fn covers_pixel(self, x: int, y: int) -> bool {
        &&& self.loc.x <= x < self.right()
        &&& self.loc.y <= y < self.bottom()
    }

    /// Whether two rectangles share a pixel, touching edges not counted.
    pub open spec fn meets(self, other: Rect) -> bool {
        &&& self.loc.x < other.right()
        &&& other.loc.x < self.right()
        &&& self.loc.y < other.bottom()
        &&& other.loc.y < self.bottom()
    }

    /// Whether `point` is inside. The left and top edges are, the right and
    /// bottom ones are not.
    pub fn contains(self, point: Point) -> (inside: bool)
        ensures
            inside == self.covers_pixel(point.x as int, point.y as int),
    {
        point.x >= self.loc.x && point.x < plus(self.loc.x, self.size.w) && point.y >= self.loc.y
            && point.y < plus(self.loc.y, self.size.h)
    }

    /// Whether the two share a pixel. Rectangles that only touch do not.
    pub fn overlaps(self, other: Rect) -> (r: bool)
        ensures
            r == self.meets(other),
    {
        self.loc.x < plus(other.loc.x, other.size.w) && other.loc.x < plus(self.loc.x, self.size.w)
            && self.loc.y < plus(other.loc.y, other.size.h) && other.loc.y < plus(
            self.loc.y,
            self.size.h,
        )
    }

    /// The smallest rectangle around all four corners of both.
    pub open spec fn joined(self, other: Rect) -> Rect {
        let left = smaller(
            smaller(self.loc.x as int, self.right()),
            smaller(other.loc.x as int, other.right()),
        );
        let top = smaller(
            smaller(self.loc.y as int, self.bottom()),
            smaller(other.loc.y as int, other.bottom()),
        );
        let right = larger(
            larger(self.loc.x as int, self.right()),
            larger(other.loc.x as int, other.right()),
        );
        let bottom = larger(
            larger(self.loc.y as int, self.bottom()),
            larger(other.loc.y as int, other.bottom()),
        );
        Rect {
            loc: Point { x: left as i32, y: top as i32 },
            size: Size {
                w: nearest_coordinate(right - left) as i32,
                h: nearest_coordinate(bottom - top) as i32,
            },
        }
    }

    /// The smallest rectangle that contains both.
    pub fn merge(self, other: Rect) -> (both: Rect)
        ensures
            both == self.joined(other),
    {
        let right: i32 = plus(self.loc.x, self.size.w);
        let bottom: i32 = plus(self.loc.y, self.size.h);
        let other_right: i32 = plus(other.loc.x, other.size.w);
        let other_bottom: i32 = plus(other.loc.y, other.size.h);
        let left: i32 = min(min(self.loc.x, right), min(other.loc.x, other_right));
        let top: i32 = min(min(self.loc.y, bottom), min(other.loc.y, other_bottom));
        let far: i32 = max(max(self.loc.x, right), max(other.loc.x, other_right));
        let low: i32 = max(max(self.loc.y, bottom), max(other.loc.y, other_bottom));
        Rect {
            loc: Point { x: left, y: top },
            size: Size { w: minus(far, left), h: minus(low, top) },
        }
    }
}

/// Every pixel of either rectangle is a pixel of the two merged, as long as
/// the merged rectangle is no wider and no taller than a size can say.
pub proof fn merge_contains_both(one: Rect, other: Rect, x: int, y: int)
    requires
        one.covers_pixel(x, y) || other.covers_pixel(x, y),
        one.joined(other).size.w < i32::MAX,
        one.joined(other).size.h < i32::MAX,
    ensures
        one.joined(other).covers_pixel(x, y),
{
}

/// A number that is a coordinate stays as it is, and one that is not becomes the
/// coordinate nearest to it.
pub proof fn the_nearest_coordinate(v: int, other: int)
    requires
        -0x8000_0000 <= other <= 0x7fff_ffff,
    ensures
        -0x8000_0000 <= nearest_coordinate(v) <= 0x7fff_ffff,
        -0x8000_0000 <= v <= 0x7fff_ffff <==> nearest_coordinate(v) == v,
        ({
            let gap = |c: int|
                if v >= c {
                    v - c
                } else {
                    c - v
                };
            gap(nearest_coordinate(v)) <= gap(other)
        }),
        is_coordinate(v) <==> nearest_coordinate(v) == v,
{
}

/// The larger and the smaller of two numbers are the two numbers, in order.
pub proof fn the_larger_and_the_smaller(a: int, b: int)
    ensures
        larger(a, b) >= a,
        larger(a, b) >= b,
        smaller(a, b) <= a,
        smaller(a, b) <= b,
        larger(a, b) + smaller(a, b) == a + b,
        larger(a, b) == a || larger(a, b) == b,
{
}

/// A rectangle has a pixel where that is no more than its size away from its
/// corner, to the right and down, the corner itself counted and the far edges
/// not.
pub proof fn the_pixels_of_a_rectangle(rect: Rect, x: int, y: int)
    requires
        rect.loc.x + rect.size.w <= 0x7fff_ffff,
        rect.loc.y + rect.size.h <= 0x7fff_ffff,
        rect.size.w >= 0,
        rect.size.h >= 0,
    ensures
        rect.right() - rect.loc.x == rect.size.w,
        rect.bottom() - rect.loc.y == rect.size.h,
        rect.covers_pixel(rect.loc.x + x, rect.loc.y + y) <==> 0 <= x < rect.size.w && 0 <= y
            < rect.size.h,
{
}

/// A rectangle that runs off the coordinates ends where they do.
pub proof fn a_rectangle_ends_with_the_coordinates(rect: Rect)
    ensures
        rect.loc.x + rect.size.w > 0x7fff_ffff ==> rect.right() == 0x7fff_ffff,
        rect.loc.y + rect.size.h > 0x7fff_ffff ==> rect.bottom() == 0x7fff_ffff,
        rect.loc.x + rect.size.w < -0x8000_0000 ==> rect.right() == -0x8000_0000,
        rect.loc.y + rect.size.h < -0x8000_0000 ==> rect.bottom() == -0x8000_0000,
{
}

/// Two rectangles that each have pixels meet exactly where they share one, and
/// so it makes no difference which is asked.
pub proof fn rectangles_meet_where_they_share_a_pixel(one: Rect, other: Rect)
    requires
        one.covers_pixel(one.loc.x as int, one.loc.y as int),
        other.covers_pixel(other.loc.x as int, other.loc.y as int),
    ensures
        one.meets(other) == other.meets(one),
        one.meets(other) <==> exists|x: int, y: int| #[trigger]
            one.covers_pixel(x, y) && other.covers_pixel(x, y),
{
    let x = larger(one.loc.x as int, other.loc.x as int);
    let y = larger(one.loc.y as int, other.loc.y as int);
    if one.meets(other) {
        assert(one.covers_pixel(x, y) && other.covers_pixel(x, y));
    }
}

/// A rectangle that has pixels meets itself, and does not meet the one that
/// begins where it ends, on any side.
pub proof fn rectangles_that_touch_do_not_meet(one: Rect, other: Rect)
    requires
        one.size.w > 0,
        one.size.h > 0,
        one.loc.x + one.size.w <= 0x7fff_ffff,
        one.loc.y + one.size.h <= 0x7fff_ffff,
        other.loc.x == one.loc.x + one.size.w || other.loc.y == one.loc.y + one.size.h,
    ensures
        one.meets(one),
        !one.meets(other),
        !other.meets(one),
{
}

/// Two rectangles merged begin where the first of them does along each axis and
/// end where the last of them does, whichever is merged with which.
pub proof fn merging_spans_both(one: Rect, other: Rect)
    requires
        one.size.w >= 0,
        one.size.h >= 0,
        other.size.w >= 0,
        other.size.h >= 0,
        one.loc.x >= -0x4000_0000,
        one.loc.y >= -0x4000_0000,
        other.loc.x >= -0x4000_0000,
        other.loc.y >= -0x4000_0000,
        one.loc.x + one.size.w <= 0x3fff_ffff,
        one.loc.y + one.size.h <= 0x3fff_ffff,
        other.loc.x + other.size.w <= 0x3fff_ffff,
        other.loc.y + other.size.h <= 0x3fff_ffff,
    ensures
        ({
            let both = one.joined(other);
            &&& both == other.joined(one)
            &&& both.loc.x <= one.loc.x && both.loc.x <= other.loc.x
            &&& both.loc.x == one.loc.x || both.loc.x == other.loc.x
            &&& both.loc.y <= one.loc.y && both.loc.y <= other.loc.y
            &&& both.loc.y == one.loc.y || both.loc.y == other.loc.y
            &&& both.loc.x + both.size.w >= one.loc.x + one.size.w
            &&& both.loc.x + both.size.w >= other.loc.x + other.size.w
            &&& both.loc.x + both.size.w == one.loc.x + one.size.w || both.loc.x + both.size.w
                == other.loc.x + other.size.w
            &&& both.loc.y + both.size.h >= one.loc.y + one.size.h
            &&& both.loc.y + both.size.h >= other.loc.y + other.size.h
            &&& both.loc.y + both.size.h == one.loc.y + one.size.h || both.loc.y + both.size.h
                == other.loc.y + other.size.h
        }),
{
}

/// A rectangle merged with itself is itself.
pub proof fn merging_with_itself_changes_nothing(rect: Rect)
    requires
        rect.size.w >= 0,
        rect.size.h >= 0,
        rect.loc.x + rect.size.w <= 0x7fff_ffff,
        rect.loc.y + rect.size.h <= 0x7fff_ffff,
    ensures
        rect.joined(rect) == rect,
{
}

/// Rectangles meet where each begins before the other ends, wherever that is.
pub proof fn rectangles_meet_between_their_ends(one: Rect, other: Rect)
    ensures
        one.meets(other) <==> !(one.loc.x >= other.right() || other.loc.x >= one.right()
            || one.loc.y >= other.bottom() || other.loc.y >= one.bottom()),
{
}

/// Rectangles meet by their edges: each begins before the other ends, along
/// both axes.
pub proof fn rectangles_meet_by_their_edges(one: Rect, other: Rect)
    requires
        -0x8000_0000 <= one.loc.x + one.size.w <= 0x7fff_ffff,
        -0x8000_0000 <= one.loc.y + one.size.h <= 0x7fff_ffff,
        -0x8000_0000 <= other.loc.x + other.size.w <= 0x7fff_ffff,
        -0x8000_0000 <= other.loc.y + other.size.h <= 0x7fff_ffff,
    ensures
        one.meets(other) <==> other.loc.x - one.loc.x < one.size.w && one.loc.x - other.loc.x
            < other.size.w && other.loc.y - one.loc.y < one.size.h && one.loc.y - other.loc.y
            < other.size.h,
{
}

/// A rectangle ends its size away from its corner, whichever way that is.
pub proof fn where_a_rectangle_ends(rect: Rect)
    ensures
        -0x8000_0000 <= rect.loc.x + rect.size.w <= 0x7fff_ffff ==> rect.right() == rect.loc.x
            + rect.size.w,
        -0x8000_0000 <= rect.loc.y + rect.size.h <= 0x7fff_ffff ==> rect.bottom() == rect.loc.y
            + rect.size.h,
{
}

/// Two rectangles merged reach from the first of all their corners to the last,
/// along each axis, or as far as a size can say.
pub proof fn merging_goes_by_the_corners(one: Rect, other: Rect)
    ensures
        ({
            let both = one.joined(other);
            let xs = seq![
                one.loc.x as int,
                one.right(),
                other.loc.x as int,
                other.right(),
            ];
            let ys = seq![
                one.loc.y as int,
                one.bottom(),
                other.loc.y as int,
                other.bottom(),
            ];
            &&& xs.contains(both.loc.x as int)
            &&& ys.contains(both.loc.y as int)
            &&& forall|i: int|
                0 <= i < 4 ==> both.loc.x <= #[trigger] xs[i] && (both.size.w < 0x7fff_ffff
                    ==> xs[i] <= both.loc.x + both.size.w)
            &&& forall|i: int|
                0 <= i < 4 ==> both.loc.y <= #[trigger] ys[i] && (both.size.h < 0x7fff_ffff
                    ==> ys[i] <= both.loc.y + both.size.h)
            &&& xs.contains(both.loc.x + both.size.w) || both.size.w == 0x7fff_ffff
            &&& ys.contains(both.loc.y + both.size.h) || both.size.h == 0x7fff_ffff
            &&& both.size.w == 0x7fff_ffff ==> exists|i: int, j: int|
                0 <= i < 4 && 0 <= j < 4 && #[trigger] xs[i] - #[trigger] xs[j] >= 0x7fff_ffff
            &&& both.size.h == 0x7fff_ffff ==> exists|i: int, j: int|
                0 <= i < 4 && 0 <= j < 4 && #[trigger] ys[i] - #[trigger] ys[j] >= 0x7fff_ffff
        }),
{
    let both = one.joined(other);
    let xs = seq![one.loc.x as int, one.right(), other.loc.x as int, other.right()];
    let ys = seq![one.loc.y as int, one.bottom(), other.loc.y as int, other.bottom()];
    assert(xs[0] == one.loc.x && xs[1] == one.right() && xs[2] == other.loc.x && xs[3]
        == other.right());
    assert(ys[0] == one.loc.y && ys[1] == one.bottom() && ys[2] == other.loc.y && ys[3]
        == other.bottom());
}

} // verus!
