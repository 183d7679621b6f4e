//! Drawing into textures of the compositor's own: a window that is bent, and
//! the screens of a desk that is shown in one window.

use crate::geometry::{larger, max, Size};
use crate::paint::{holds, Kept};
use vstd::prelude::*;

verus! {

/// How many textures a pane keeps between frames. One: what changes its size
/// mid-warp is the monitor it is on, and it is on one at a time.
pub const KEPT: usize = 1;

/// The texture a pane was last captured into, kept for the next capture of
/// the same size.
#[derive(Debug)]
pub struct Scratch<T> {
    pub kept: Kept<Size, T>,
}

impl<T> Default for Scratch<T> {
    fn default() -> (scratch: Self)
        ensures
            scratch.wf(),
            scratch.kept.held@ == Seq::<(Size, T)>::empty(),
    {
        Scratch { kept: Kept::keeping(KEPT) }
    }
}

impl<T> Scratch<T> {
    /// Whether no more is kept than should be.
    pub open spec fn wf(self) -> bool {
        self.kept.wf() && self.kept.cap == KEPT
    }

    /// Give back whatever is kept.
    pub fn release(&mut self)
        ensures
            final(self).wf(),
            final(self).kept.held@ == Seq::<(Size, T)>::empty(),
    {
        self.kept = Kept::keeping(KEPT);
    }
}

impl<T: Clone> Scratch<T> {
    /// A texture of a size: the one that is kept, if it is of that size, or
    /// else a new one, which is kept in its place. None is made while one of the
    /// size is kept.
    pub fn texture<E, F: FnOnce() -> Result<T, E>>(&mut self, size: Size, make: F) -> (r: Result<
        T,
        E,
    >)
        requires
            old(self).wf(),
            !holds(old(self).kept.held@, size) ==> call_requires(make, ()),
        ensures
            final(self).wf(),
            r is Ok ==> holds(final(self).kept.held@, size),
            holds(old(self).kept.held@, size) ==> {
                &&& final(self).kept == old(self).kept
                &&& r is Ok
                &&& exists|i: int|
                    0 <= i < old(self).kept.held.len() && (#[trigger] old(self).kept.held@[i]).0
                        == size && cloned(old(self).kept.held@[i].1, r->Ok_0)
            },
            !holds(old(self).kept.held@, size) ==> {
                &&& call_ensures(make, (), r)
                &&& r is Err ==> final(self).kept == old(self).kept
                &&& r matches Ok(made) ==> exists|copy: T|
                    #[trigger] cloned(made, copy) && final(self).kept.held@ == seq![(size, copy)]
            },
    {
        if let Some(held) = self.kept.get(size) {
            return Ok(held.clone());
        }
        match make() {
            Err(err) => Err(err),
            Ok(made) => {
                let copy = made.clone();
                assert(cloned(made, copy));
                self.kept.push(size, copy);
                assert(self.kept.held@ =~= seq![(size, copy)]);
                assert(self.kept.held@[0].0 == size);
                Ok(made)
            },
        }
    }
}

/// The size a buffer is made at: never less than a pixel each way.
pub open spec fn at_least_a_pixel(size: Size) -> Size {
    Size { w: larger(size.w as int, 1) as i32, h: larger(size.h as int, 1) as i32 }
}

/// How many device pixels a window is captured at, from its size times its
/// monitor's scale. One with no size still has a pixel.
pub fn pixels(scaled: Size) -> (size: Size)
    ensures
        size == at_least_a_pixel(scaled),
{
    Size { w: max(scaled.w, 1), h: max(scaled.h, 1) }
}

/// What a capture comes to before anything is drawn.
#[derive(Clone, Copy, Debug, PartialEq, Eq, Structural)]
pub enum Capture {
    /// The window is not there to be captured.
    Gone,
    /// There is nothing in it to draw, which is worth saying.
    Empty,
    /// Draw it into a texture of this size.
    Into(Size),
}

/// What capturing a window comes to: its size in device pixels, if it has a
/// place at all, and how many elements it is made of.
pub fn capture(scaled: Option<Size>, elements: usize) -> (capture: Capture)
    ensures
        capture == match scaled {
            None => Capture::Gone,
            Some(scaled) => if elements == 0 {
                Capture::Empty
            } else {
                Capture::Into(at_least_a_pixel(scaled))
            },
        },
{
    match scaled {
        None => Capture::Gone,
        Some(scaled) => if elements == 0 {
            Capture::Empty
        } else {
            Capture::Into(pixels(scaled))
        },
    }
}

/// How drawing into a texture went.
#[derive(Clone, Copy, Debug, PartialEq, Eq, Structural)]
pub enum Drawing {
    /// There was no texture to draw into.
    Unmade,
    /// The texture could not be bound.
    Unbound,
    /// The frame could not be begun.
    Unbegun,
    /// The frame did not finish.
    Unfinished,
    /// The frame finished and could not be waited for.
    Unwaited,
    Drawn,
}

impl Drawing {
    /// Whether there is a picture in the texture.
    pub fn usable(self) -> (r: bool)
        ensures
            r == (self is Drawn),
    {
        match self {
            Drawing::Drawn => true,
            _ => false,
        }
    }

    /// Whether the framebuffer has to be let go of: once a bind was tried, it
    /// has, whatever came of it.
    pub fn releases(self) -> (r: bool)
        ensures
            r == !(self is Unmade),
    {
        match self {
            Drawing::Unmade => false,
            _ => true,
        }
    }
}

/// The textures the screens of a desk are drawn into, one for each.
#[derive(Debug)]
pub struct Screens<T> {
    pub textures: Vec<(Size, T)>,
}

impl<T> Screens<T> {
    pub fn new() -> (screens: Self)
        ensures
            screens.textures@ == Seq::<(Size, T)>::empty(),
    {
        Screens { textures: Vec::new() }
    }

    /// Whether a screen has a texture of a size.
    pub open spec fn ready(self, index: int, size: Size) -> bool {
        index < self.textures.len() && self.textures@[index].0 == size
    }

    /// The texture a screen is drawn into: the one it has, where that is of the
    /// size, or else a new one in its place. Screens before it that have none
    /// yet are given one of the same size. Where a texture cannot be made there
    /// is none, and those that were made are kept. None is made for a screen
    /// that has one of the size.
    pub fn texture<F: FnMut(Size) -> Option<T>>(&mut self, index: usize, size: Size, make: F) -> (r:
        Option<&mut T>)
        requires
            !old(self).ready(index as int, size) ==> forall|buffer: Size| #[trigger]
                call_requires(make, (buffer,)),
        ensures
            forall|k: int|
                0 <= k < old(self).textures.len() && k != index ==> final(self).textures@[k]
                    == #[trigger] old(self).textures@[k],
            forall|k: int|
                old(self).textures.len() <= k < final(self).textures.len() && k != index ==> {
                    &&& (#[trigger] final(self).textures@[k]).0 == size
                    &&& call_ensures(
                        make,
                        (at_least_a_pixel(size),),
                        Some(final(self).textures@[k].1),
                    )
                },
            match r {
                Some(texture) => {
                    &&& final(self).textures.len() == if index < old(self).textures.len() {
                        old(self).textures.len() as int
                    } else {
                        index + 1
                    }
                    &&& final(self).textures@[index as int] == (size, *final(texture))
                    &&& if old(self).ready(index as int, size) {
                        *texture == old(self).textures@[index as int].1
                    } else {
                        call_ensures(make, (at_least_a_pixel(size),), Some(*texture))
                    }
                },
                None => {
                    &&& !old(self).ready(index as int, size)
                    &&& call_ensures(make, (at_least_a_pixel(size),), None::<T>)
                    &&& old(self).textures.len() <= final(self).textures.len()
                    &&& index < old(self).textures.len() ==> final(self).textures@
                        == old(self).textures@
                    &&& index >= old(self).textures.len() ==> final(self).textures.len() <= index
                },
            },
    {
        let ghost before = self.textures@;
        let mut maker = make;
        while self.textures.len() <= index
            invariant
                before == old(self).textures@,
                maker == make,
                !old(self).ready(index as int, size) ==> forall|buffer: Size| #[trigger]
                    call_requires(make, (buffer,)),
                before.len() <= self.textures.len(),
                before.len() <= index ==> self.textures.len() <= index + 1,
                before.len() > index ==> self.textures@ == before,
                forall|k: int|
                    0 <= k < before.len() ==> self.textures@[k] == #[trigger] before[k],
                forall|k: int|
                    before.len() <= k < self.textures.len() ==> {
                        &&& (#[trigger] self.textures@[k]).0 == size
                        &&& call_ensures(
                            make,
                            (at_least_a_pixel(size),),
                            Some(self.textures@[k].1),
                        )
                    },
            decreases index + 1 - self.textures.len(),
        {
            match maker(pixels(size)) {
                Some(texture) => self.textures.push((size, texture)),
                None => {
                    return None;
                },
            }
        }
        if self.textures[index].0 != size {
            match maker(pixels(size)) {
                Some(texture) => self.textures.set(index, (size, texture)),
                None => {
                    return None;
                },
            }
        }
        Some(&mut self.textures[index].1)
    }
}

/// The elements of a frame, topmost first, in the order they are painted in:
/// the bottom one first.
pub fn back_to_front(count: usize) -> (order: Vec<usize>)
    ensures
        order.len() == count,
        forall|i: int| 0 <= i < count ==> #[trigger] order@[i] == count - 1 - i,
{
    let mut order: Vec<usize> = Vec::new();
    let mut left: usize = count;
    while left > 0
        invariant
            left <= count,
            order.len() == count - left,
            forall|i: int| 0 <= i < order.len() ==> #[trigger] order@[i] == count - 1 - i,
        decreases left,
    {
        left = left - 1;
        order.push(left);
    }
    order
}

/// A buffer is as large as what is drawn into it, and has a pixel where there is
/// nothing of that, each way by itself.
pub proof fn a_buffer_has_a_pixel(size: Size)
    ensures
        size.w >= 1 ==> at_least_a_pixel(size).w == size.w,
        size.h >= 1 ==> at_least_a_pixel(size).h == size.h,
        size.w < 1 ==> at_least_a_pixel(size).w == 1,
        size.h < 1 ==> at_least_a_pixel(size).h == 1,
{
}

/// A pane keeps one texture.
pub proof fn one_texture_is_kept<T>(scratch: Scratch<T>)
    requires
        scratch.wf(),
    ensures
        scratch.kept.held.len() <= 1,
        scratch.kept.cap == 1,
{
}

/// A screen's texture is ready where there is one at its place and it is of the
/// size that is wanted.
pub proof fn a_texture_is_ready_at_its_size<T>(screens: Screens<T>, index: int, size: Size)
    requires
        0 <= index,
    ensures
        index >= screens.textures.len() ==> !screens.ready(index, size),
        index < screens.textures.len() ==> (screens.ready(index, size)
            <==> screens.textures@[index].0.w == size.w && screens.textures@[index].0.h == size.h),
{
}

} // verus!
