//! Scenes drawn on the GPU: which pictures of one are kept, and what to do
//! when drawing it fails.
//!
//! A scene is drawn once per output per frame and each output brings its own
//! scale, so a window across a bezel is wanted at two sizes in turn. A picture
//! of each is kept, and neither is drawn again until the scene changes.

use crate::double::{equal, equals, magnitude, INFINITY};
use crate::geometry::Size;
use vstd::prelude::*;

verus! {

/// Something a picture can be kept under.
pub trait Key: Copy {
    /// Whether two keys are the same.
    spec fn same(self, other: Self) -> bool;

    /// Whether two keys are the same.
    fn is(&self, other: &Self) -> (r: bool)
        ensures
            r == (*self).same(*other),
    ;
}

impl Key for i32 {
    open spec fn same(self, other: Self) -> bool {
        self == other
    }

    fn is(&self, other: &Self) -> (r: bool) {
        *self == *other
    }
}

impl Key for Size {
    open spec fn same(self, other: Self) -> bool {
        self == other
    }

    fn is(&self, other: &Self) -> (r: bool) {
        *self == *other
    }
}

impl PartialEq for Drawn {
    fn eq(&self, other: &Self) -> (r: bool) {
        self.pixels == other.pixels && equals(self.scale, other.scale)
    }
}

impl vstd::std_specs::cmp::PartialEqSpecImpl for Drawn {
    open spec fn obeys_eq_spec() -> bool {
        true
    }

    open spec fn eq_spec(&self, other: &Self) -> bool {
        self.pixels == other.pixels && equal(self.scale, other.scale)
    }
}

impl Key for Drawn {
    /// Scales are compared as the doubles they are.
    open spec fn same(self, other: Self) -> bool {
        self.pixels == other.pixels && equal(self.scale, other.scale)
    }

    fn is(&self, other: &Self) -> (r: bool) {
        *self == *other
    }
}

/// What a scene was drawn at. One buffer size at two scales is two pictures.
#[derive(Clone, Copy, Debug)]
pub struct Drawn {
    /// The size of the buffer, in device pixels.
    pub pixels: Size,
    /// Device pixels per logical one, as the bits of a double.
    pub scale: u64,
}

/// How many pictures of one scene are kept at once: a window across a bezel is
/// on two screens.
pub const KEPT: usize = 2;

/// What a scene has already been drawn at, newest last.
#[derive(Debug)]
pub struct Kept<K, T> {
    pub held: Vec<(K, T)>,
    pub cap: usize,
}

/// Whether something is kept under a key.
pub open spec fn holds<K: Key, T>(held: Seq<(K, T)>, key: K) -> bool {
    exists|i: int| 0 <= i < held.len() && (#[trigger] held[i]).0.same(key)
}

/// What is kept under any key but one, in its order.
pub open spec fn without<K: Key, T>(held: Seq<(K, T)>, key: K) -> Seq<(K, T)>
    decreases held.len(),
{
    if held.len() == 0 {
        held
    } else {
        let before = without(held.drop_last(), key);
        if held.last().0.same(key) {
            before
        } else {
            before.push(held.last())
        }
    }
}

/// The newest `n` of what is kept.
pub open spec fn newest<K, T>(held: Seq<(K, T)>, n: int) -> Seq<(K, T)> {
    if held.len() <= n {
        held
    } else {
        held.subrange(held.len() - n, held.len() as int)
    }
}

impl<K: Key, T> Kept<K, T> {
    /// Whether there is room for something, no more than there is room for,
    /// and nothing twice.
    pub open spec fn wf(self) -> bool {
        &&& self.cap >= 1
        &&& self.held.len() <= self.cap
        &&& forall|i: int, j: int|
            0 <= i < j < self.held.len() ==> !(#[trigger] self.held@[i]).0.same(
                (#[trigger] self.held@[j]).0,
            )
    }

    /// Keep up to `cap` things, and one at the least.
    pub fn keeping(cap: usize) -> (kept: Self)
        ensures
            kept.wf(),
            kept.held@ == Seq::<(K, T)>::empty(),
            kept.cap == if cap >= 1 {
                cap
            } else {
                1
            },
    {
        Kept {
            held: Vec::new(),
            cap: if cap >= 1 {
                cap
            } else {
                1
            },
        }
    }

    /// Where something is kept under a key.
    fn find(&self, key: K) -> (at: Option<usize>)
        ensures
            match at {
                Some(i) => i < self.held.len() && self.held@[i as int].0.same(key) && forall|k: int|
                    0 <= k < i ==> !(#[trigger] self.held@[k]).0.same(key),
                None => !holds(self.held@, key),
            },
    {
        let mut i: usize = 0;
        while i < self.held.len()
            invariant
                i <= self.held.len(),
                forall|k: int| 0 <= k < i ==> !(#[trigger] self.held@[k]).0.same(key),
            decreases self.held.len() - i,
        {
            if self.held[i].0.is(&key) {
                return Some(i);
            }
            i = i + 1;
        }
        None
    }

    /// Whether what is kept under a key is current. Something new to draw
    /// makes everything that is kept old at once.
    pub fn current(&mut self, key: K, fresh: bool) -> (r: bool)
        requires
            old(self).wf(),
        ensures
            final(self).wf(),
            final(self).cap == old(self).cap,
            final(self).held@ == if fresh {
                Seq::empty()
            } else {
                old(self).held@
            },
            r == (!fresh && holds(old(self).held@, key)),
    {
        if fresh {
            self.held.clear();
        }
        self.find(key).is_some()
    }

    /// What is kept under a key.
    pub fn get(&self, key: K) -> (r: Option<&T>)
        ensures
            match r {
                Some(value) => exists|i: int|
                    {
                        &&& 0 <= i < self.held.len()
                        &&& (#[trigger] self.held@[i]).0.same(key)
                        &&& self.held@[i].1 == *value
                        &&& forall|k: int| 0 <= k < i ==> !(#[trigger] self.held@[k]).0.same(key)
                    },
                None => !holds(self.held@, key),
            },
    {
        match self.find(key) {
            Some(i) => {
                assert(self.held@[i as int].0.same(key));
                Some(&self.held[i].1)
            },
            None => None,
        }
    }

    /// What is kept under a key, to be changed.
    pub fn get_mut(&mut self, key: K) -> (r: Option<&mut T>)
        requires
            old(self).wf(),
        ensures
            match r {
                Some(value) => exists|i: int|
                    {
                        &&& 0 <= i < old(self).held.len()
                        &&& (#[trigger] old(self).held@[i]).0.same(key)
                        &&& old(self).held@[i].1 == *value
                        &&& forall|k: int|
                            0 <= k < i ==> !(#[trigger] old(self).held@[k]).0.same(key)
                        &&& final(self).held@ == old(self).held@.update(
                            i,
                            (old(self).held@[i].0, *final(value)),
                        )
                    },
                None => !holds(old(self).held@, key) && final(self).held@ == old(self).held@,
            },
            final(self).cap == old(self).cap,
            final(self).wf(),
    {
        match self.find(key) {
            Some(i) => {
                assert(self.held@[i as int].0.same(key));
                Some(&mut self.held[i].1)
            },
            None => None,
        }
    }

    /// Keep something under a key in place of what was kept under it, and let
    /// the oldest go where there is no room.
    pub fn push(&mut self, key: K, value: T)
        requires
            old(self).wf(),
        ensures
            final(self).wf(),
            final(self).cap == old(self).cap,
            final(self).held@ == keeping_too(old(self).held@, old(self).cap as int, key, value),
    {
        let ghost before = self.held@;
        proof {
            without_leaves_the_rest(before, key);
        }
        let mut i: usize = 0;
        while i < self.held.len()
            invariant
                i <= self.held.len(),
                self.cap == old(self).cap,
                forall|k: int| 0 <= k < i ==> !(#[trigger] self.held@[k]).0.same(key),
                without(self.held@, key) == without(before, key),
            decreases self.held.len() - i,
        {
            if self.held[i].0.is(&key) {
                proof {
                    without_one(self.held@, key, i as int);
                }
                let _ = self.held.remove(i);
            } else {
                i = i + 1;
            }
        }
        proof {
            without_none(self.held@, key);
        }
        assert(self.held@ == without(before, key));
        let ghost rest = self.held@;
        assert(newest(rest, rest.len() as int) =~= rest);
        while self.held.len() >= self.cap
            invariant
                self.cap == old(self).cap,
                self.cap >= 1,
                self.held.len() <= rest.len(),
                rest.len() <= self.cap,
                self.held.len() == rest.len() || self.held.len() >= self.cap - 1,
                self.held@ == newest(rest, self.held.len() as int),
            decreases self.held.len(),
        {
            let _ = self.held.remove(0);
            assert(self.held@ =~= newest(rest, self.held.len() as int));
        }
        assert(self.held@ =~= newest(rest, self.cap - 1));
        self.held.push((key, value));
    }

    /// How many things are kept.
    pub fn count(&self) -> (n: usize)
        ensures
            n == self.held.len(),
    {
        self.held.len()
    }
}

/// What is left without a key is still there once each, and under other keys.
proof fn without_leaves_the_rest<K: Key, T>(held: Seq<(K, T)>, key: K)
    requires
        forall|i: int, j: int|
            0 <= i < j < held.len() ==> !(#[trigger] held[i]).0.same((#[trigger] held[j]).0),
    ensures
        without(held, key).len() <= held.len(),
        forall|i: int|
            0 <= i < without(held, key).len() ==> !(#[trigger] without(held, key)[i]).0.same(key),
        forall|i: int|
            0 <= i < without(held, key).len() ==> held.contains(#[trigger] without(held, key)[i]),
        forall|i: int, j: int|
            0 <= i < j < without(held, key).len() ==> !(#[trigger] without(held, key)[i]).0.same(
                (#[trigger] without(held, key)[j]).0,
            ),
    decreases held.len(),
{
    if held.len() > 0 {
        let short = held.drop_last();
        without_leaves_the_rest(short, key);
        let before = without(short, key);
        let all = without(held, key);
        assert forall|i: int| 0 <= i < all.len() implies held.contains(#[trigger] all[i]) by {
            if i < before.len() {
                assert(short.contains(before[i]));
                let k = choose|k: int| 0 <= k < short.len() && short[k] == before[i];
                assert(held[k] == all[i]);
            } else {
                assert(held[held.len() - 1] == all[i]);
            }
        }
        assert forall|i: int, j: int| 0 <= i < j < all.len() implies !(#[trigger] all[i]).0.same(
            (#[trigger] all[j]).0,
        ) by {
            if j == before.len() {
                assert(short.contains(before[i]));
                let k = choose|k: int| 0 <= k < short.len() && short[k] == before[i];
                assert(!held[k].0.same(held[held.len() - 1].0));
            }
        }
    }
}

proof fn without_none<K: Key, T>(held: Seq<(K, T)>, key: K)
    requires
        forall|k: int| 0 <= k < held.len() ==> !(#[trigger] held[k]).0.same(key),
    ensures
        without(held, key) == held,
    decreases held.len(),
{
    if held.len() > 0 {
        let short = held.drop_last();
        assert forall|k: int| 0 <= k < short.len() implies !(#[trigger] short[k]).0.same(key) by {
            assert(!held[k].0.same(key));
        }
        without_none(short, key);
        assert(!held[held.len() - 1].0.same(key));
        assert(short.push(held.last()) =~= held);
    }
}

/// Nothing is different without a key for one that was kept under it.
proof fn without_one<K: Key, T>(held: Seq<(K, T)>, key: K, at: int)
    requires
        0 <= at < held.len(),
        held[at].0.same(key),
    ensures
        without(held.remove(at), key) == without(held, key),
    decreases held.len(),
{
    let short = held.drop_last();
    if at == held.len() - 1 {
        assert(held.remove(at) =~= short);
    } else {
        without_one(short, key, at);
        assert(held.remove(at).drop_last() =~= short.remove(at));
        assert(held.remove(at).last() == held.last());
    }
}

/// Something that has been said and need not be said again.
#[derive(Debug)]
pub struct Said {
    pub said: bool,
}

impl Default for Said {
    fn default() -> (said: Self)
        ensures
            !said.said,
    {
        Said { said: false }
    }
}

impl Said {
    /// Whether it is news, which it is once.
    pub fn news(&mut self) -> (news: bool)
        ensures
            news == !old(self).said,
            final(self).said,
    {
        let news = !self.said;
        self.said = true;
        news
    }

    /// Say it, if it is news. What has been said is not said again: `say` may
    /// then not even be callable.
    pub fn once<F: FnOnce()>(&mut self, say: F)
        requires
            !old(self).said ==> call_requires(say, ()),
        ensures
            final(self).said,
            !old(self).said ==> call_ensures(say, (), ()),
    {
        if self.news() {
            say();
        }
    }

    /// It worked: the next failure is news again.
    pub fn worked(&mut self)
        ensures
            !final(self).said,
    {
        self.said = false;
    }
}

/// A picture of a scene, and the size of the buffer it is in.
#[derive(Debug)]
pub struct Sampled<T> {
    pub texture: T,
    pub size: Size,
}

/// What has been complained of, each until it works again.
#[derive(Debug)]
pub struct Complaints {
    /// That the compositor's own context could not be restored.
    pub restoring: Said,
    /// That a draw could not be waited for.
    pub waiting: Said,
    /// That a scene has no buffer to sample.
    pub missing: Said,
    /// That a scene's buffer could not be imported.
    pub importing: Said,
    /// That a scene did not render.
    pub rendering: Said,
}

/// A scene on the GPU path: the last picture of it, the pictures kept, and the
/// size of the buffer it is bound to.
#[derive(Debug)]
pub struct Gpu<T> {
    pub shown: Option<Sampled<T>>,
    pub kept: Kept<Drawn, Sampled<T>>,
    pub bound: Size,
    pub said: Complaints,
}

/// How rendering a scene went.
#[derive(Clone, Copy, Debug, PartialEq, Eq, Structural)]
pub enum Rendered {
    /// There is a new picture, and a fence to wait for or none.
    Drawn { fenced: bool },
    /// Nothing in the scene had changed.
    Unchanged,
    /// It did not render.
    Failed,
}

/// What refreshing a scene's picture comes to next.
#[derive(Clone, Copy, Debug, PartialEq, Eq, Structural)]
pub enum Step {
    /// Bind the scene to a buffer of the size that is wanted.
    Rebind,
    /// Tell the scene its scale and render it into the buffer it has.
    Render,
    /// Make the compositor's own context current again.
    Restore(Rendered),
    /// Wait for the fence that came with the picture.
    Wait,
    /// Take the picture out of the scene's buffer.
    Take,
    /// Nothing: there is a picture to draw, if there ever was one, or the
    /// frame goes without.
    End { usable: bool },
}

/// What came of taking the picture out of a scene's buffer.
pub enum Taken<T> {
    /// There was no buffer.
    Missing,
    /// It could not be imported.
    Refused,
    Imported(T),
}

impl<T> Gpu<T> {
    /// Whether the pictures kept are kept as they should be.
    pub open spec fn wf(self) -> bool {
        self.kept.wf()
    }

    pub fn new(size: Size) -> (gpu: Self)
        ensures
            gpu.wf(),
            gpu.shown is None,
            gpu.kept.held@ == Seq::<(Drawn, Sampled<T>)>::empty(),
            gpu.kept.cap == KEPT,
            gpu.bound == size,
            !gpu.said.restoring.said && !gpu.said.waiting.said && !gpu.said.missing.said
                && !gpu.said.importing.said && !gpu.said.rendering.said,
    {
        Gpu {
            shown: None,
            kept: Kept::keeping(KEPT),
            bound: size,
            said: Complaints {
                restoring: Said { said: false },
                waiting: Said { said: false },
                missing: Said { said: false },
                importing: Said { said: false },
                rendering: Said { said: false },
            },
        }
    }

    /// Whether the scene has to be drawn again to be shown at this size and
    /// scale. One with something new to draw has no picture that is current.
    pub fn stale(&mut self, wanted: Drawn, needs_render: bool) -> (r: bool)
        requires
            old(self).wf(),
        ensures
            final(self).wf(),
            r == (needs_render || !holds(old(self).kept.held@, wanted)),
            final(self).kept.held@ == if needs_render {
                Seq::empty()
            } else {
                old(self).kept.held@
            },
            *final(self) == (Gpu { kept: final(self).kept, ..*old(self) }),
            final(self).kept.cap == old(self).kept.cap,
    {
        !self.kept.current(wanted, needs_render)
    }

    /// The picture to draw at this size and scale: the one kept for it, or
    /// else the last one there was.
    pub fn picture(&self, wanted: Drawn) -> (r: Option<&Sampled<T>>)
        ensures
            holds(self.kept.held@, wanted) ==> r is Some && exists|i: int|
                {
                    &&& 0 <= i < self.kept.held.len()
                    &&& (#[trigger] self.kept.held@[i]).0.same(wanted)
                    &&& self.kept.held@[i].1 == *r->0
                    &&& forall|k: int|
                        0 <= k < i ==> !(#[trigger] self.kept.held@[k]).0.same(wanted)
                },
            !holds(self.kept.held@, wanted) ==> match r {
                Some(shown) => self.shown == Some(*shown),
                None => self.shown is None,
            },
    {
        match self.kept.get(wanted) {
            Some(kept) => Some(kept),
            None => self.shown.as_ref(),
        }
    }

    /// Begin to refresh the picture at a size: the scene has to be bound to a
    /// buffer of that size unless it is already.
    pub fn refresh(&self, size: Size) -> (step: Step)
        ensures
            step == if self.bound != size {
                Step::Rebind
            } else {
                Step::Render
            },
    {
        if self.bound != size {
            Step::Rebind
        } else {
            Step::Render
        }
    }

    /// The scene was bound to a buffer of a size, or it could not be.
    pub fn rebound(&mut self, size: Size, worked: bool) -> (step: Step)
        ensures
            *final(self) == (Gpu {
                bound: if worked {
                    size
                } else {
                    old(self).bound
                },
                ..*old(self)
            }),
            step == if worked {
                Step::Render
            } else {
                Step::Restore(Rendered::Failed)
            },
    {
        if worked {
            self.bound = size;
            Step::Render
        } else {
            Step::Restore(Rendered::Failed)
        }
    }

    /// The scene was rendered, however that went. The compositor's context is
    /// restored in any case.
    pub fn rendered(&mut self, how: Rendered) -> (step: Step)
        ensures
            step == Step::Restore(how),
            final(self).said.rendering.said == (how == Rendered::Failed
                && old(self).said.rendering.said),
            *final(self) == (Gpu {
                said: Complaints { rendering: final(self).said.rendering, ..old(self).said },
                ..*old(self)
            }),
    {
        match how {
            Rendered::Failed => {},
            _ => {
                self.said.rendering.worked();
            },
        }
        Step::Restore(how)
    }

    /// Whether the last picture is not one of the buffer the scene is bound
    /// to.
    pub open spec fn outdated(self) -> bool {
        self.shown is None || self.shown->0.size != self.bound
    }

    /// The compositor's context was restored, or it could not be. Says what is
    /// next, and whether to complain.
    pub fn restored(&mut self, how: Rendered, worked: bool) -> (r: (Step, bool))
        ensures
            !worked ==> {
                &&& r == (Step::End { usable: false }, !old(self).said.restoring.said)
                &&& final(self).said.restoring.said
                &&& final(self).said.rendering == old(self).said.rendering
            },
            worked ==> {
                &&& !final(self).said.restoring.said
                &&& match how {
                    Rendered::Drawn { fenced } => {
                        &&& r == (
                            if fenced {
                                Step::Wait
                            } else {
                                Step::Take
                            },
                            false,
                        )
                        &&& final(self).said.rendering == old(self).said.rendering
                    },
                    Rendered::Unchanged => {
                        &&& r == (
                            if old(self).outdated() {
                                Step::Take
                            } else {
                                Step::End { usable: true }
                            },
                            false,
                        )
                        &&& final(self).said.rendering == old(self).said.rendering
                    },
                    Rendered::Failed => {
                        &&& r == (Step::End { usable: true }, !old(self).said.rendering.said)
                        &&& final(self).said.rendering.said
                    },
                }
            },
            *final(self) == (Gpu {
                said: Complaints {
                    restoring: final(self).said.restoring,
                    rendering: final(self).said.rendering,
                    ..old(self).said
                },
                ..*old(self)
            }),
    {
        if !worked {
            let news = self.said.restoring.news();
            return (Step::End { usable: false }, news);
        }
        self.said.restoring.worked();
        match how {
            Rendered::Drawn { fenced } => if fenced {
                (Step::Wait, false)
            } else {
                (Step::Take, false)
            },
            Rendered::Unchanged => {
                let outdated = match &self.shown {
                    None => true,
                    Some(held) => held.size != self.bound,
                };
                if outdated {
                    (Step::Take, false)
                } else {
                    (Step::End { usable: true }, false)
                }
            },
            Rendered::Failed => {
                let news = self.said.rendering.news();
                (Step::End { usable: true }, news)
            },
        }
    }

    /// The fence was waited for, or it could not be. Says what is next, and
    /// whether to complain.
    pub fn waited(&mut self, worked: bool) -> (r: (Step, bool))
        ensures
            r == if worked {
                (Step::Take, false)
            } else {
                (Step::End { usable: false }, !old(self).said.waiting.said)
            },
            final(self).said.waiting.said == !worked,
            *final(self) == (Gpu {
                said: Complaints { waiting: final(self).said.waiting, ..old(self).said },
                ..*old(self)
            }),
    {
        if worked {
            self.said.waiting.worked();
            (Step::Take, false)
        } else {
            let news = self.said.waiting.news();
            (Step::End { usable: false }, news)
        }
    }
}

impl<T: Clone> Gpu<T> {
    /// The picture was taken out of the scene's buffer, or it could not be:
    /// one that was is kept for the size it was drawn at, and shown until
    /// there is another. Says whether to complain.
    pub fn take(&mut self, scale: u64, taken: Taken<T>) -> (complain: bool)
        requires
            old(self).wf(),
        ensures
            final(self).wf(),
            final(self).bound == old(self).bound,
            final(self).kept.cap == old(self).kept.cap,
            final(self).said.restoring == old(self).said.restoring,
            final(self).said.waiting == old(self).said.waiting,
            final(self).said.rendering == old(self).said.rendering,
            final(self).said.missing.said == (taken is Missing),
            match taken {
                Taken::Missing => {
                    &&& complain == !old(self).said.missing.said
                    &&& final(self).said.importing == old(self).said.importing
                    &&& final(self).shown == old(self).shown
                    &&& final(self).kept == old(self).kept
                },
                Taken::Refused => {
                    &&& complain == !old(self).said.importing.said
                    &&& final(self).said.importing.said
                    &&& final(self).shown == old(self).shown
                    &&& final(self).kept == old(self).kept
                },
                Taken::Imported(texture) => {
                    &&& !complain
                    &&& !final(self).said.importing.said
                    &&& final(self).shown == Some(Sampled { texture, size: old(self).bound })
                    &&& exists|copy: T|
                        {
                            &&& #[trigger] cloned(texture, copy)
                            &&& final(self).kept.held@ == keeping_too(
                                old(self).kept.held@,
                                old(self).kept.cap as int,
                                Drawn { pixels: old(self).bound, scale },
                                Sampled { texture: copy, size: old(self).bound },
                            )
                        }
                },
            },
    {
        match taken {
            Taken::Missing => self.said.missing.news(),
            Taken::Refused => {
                self.said.missing.worked();
                self.said.importing.news()
            },
            Taken::Imported(texture) => {
                self.said.missing.worked();
                self.said.importing.worked();
                let copy = texture.clone();
                assert(cloned(texture, copy));
                self.kept.push(
                    Drawn { pixels: self.bound, scale },
                    Sampled { texture: copy, size: self.bound },
                );
                self.shown = Some(Sampled { texture, size: self.bound });
                false
            },
        }
    }
}

/// What is kept once something was kept under a key.
pub open spec fn keeping_too<K: Key, T>(held: Seq<(K, T)>, cap: int, key: K, value: T) -> Seq<(K, T)> {
    newest(without(held, key), cap - 1).push((key, value))
}

/// What was kept last is there, and is found under any key that is the same. A
/// key with a scale that is not a number is not the same as itself.
pub proof fn what_is_kept_is_there<K: Key, T>(held: Seq<(K, T)>, cap: int, key: K, value: T)
    ensures
        keeping_too(held, cap, key, value).last() == (key, value),
        forall|other: K| #[trigger]
            key.same(other) ==> holds(keeping_too(held, cap, key, value), other),
{
    let after = keeping_too(held, cap, key, value);
    assert forall|other: K| #[trigger] key.same(other) implies holds(after, other) by {
        assert(after[after.len() - 1].0.same(other));
    }
}

/// A window across a bezel is drawn for both screens and then not again: with
/// room for two, the second picture does not push out the first.
pub proof fn two_sizes_stay_kept<K: Key, T>(
    held: Seq<(K, T)>,
    cap: int,
    one: K,
    its: T,
    other: K,
    others: T,
)
    requires
        cap >= 2,
        one.same(one),
        other.same(other),
        !one.same(other),
    ensures
        ({
            let both = keeping_too(keeping_too(held, cap, one, its), cap, other, others);
            holds(both, one) && holds(both, other)
        }),
{
    let first = keeping_too(held, cap, one, its);
    assert(first.last() == (one, its));
    let rest = without(first, other);
    assert(rest.last() == (one, its));
    let both = keeping_too(first, cap, other, others);
    assert(both[both.len() - 1].0.same(other));
    assert(both[both.len() - 2].0.same(one));
}

/// A scene is found again at the size and scale that it was drawn at, as long as
/// that scale is a number, and never at one that is not.
pub proof fn a_scale_that_is_no_number_is_not_found(drawn: Drawn)
    ensures
        drawn.same(drawn) <==> magnitude(drawn.scale) <= INFINITY,
        magnitude(drawn.scale) > INFINITY ==> forall|other: Drawn|
            !(#[trigger] drawn.same(other)) && !(#[trigger] other.same(drawn)),
{
}

/// Keys are the same by what they hold: whole numbers and sizes number by
/// number, and what a scene was drawn at by its size and by the value of its
/// scale.
pub proof fn when_keys_are_the_same(
    one: i32,
    other: i32,
    size: Size,
    another: Size,
    drawn: Drawn,
    again: Drawn,
)
    ensures
        one.same(other) <==> one == other,
        size.same(another) <==> size.w == another.w && size.h == another.h,
        drawn.same(again) <==> drawn.pixels.w == again.pixels.w && drawn.pixels.h == again.pixels.h
            && equal(drawn.scale, again.scale),
        KEPT == 2,
{
}

/// What is kept without a key is all the rest in its order: one more is left out
/// exactly where it is under that key.
pub proof fn all_the_rest_is_kept<K: Key, T>(held: Seq<(K, T)>, key: K, one: (K, T))
    ensures
        without(Seq::<(K, T)>::empty(), key).len() == 0,
        one.0.same(key) ==> without(held.push(one), key) == without(held, key),
        !one.0.same(key) ==> without(held.push(one), key) == without(held, key).push(one),
        holds(held, key) <==> !forall|i: int|
            0 <= i < held.len() ==> !(#[trigger] held[i]).0.same(key),
{
    assert(held.push(one).drop_last() =~= held);
}

/// The newest of what is kept are the last of it, in their order, as many as were
/// asked for or all there are.
pub proof fn the_newest_are_the_last<K, T>(held: Seq<(K, T)>, n: int, i: int)
    requires
        0 <= n,
        0 <= i < newest(held, n).len(),
    ensures
        newest(held, n).len() == n || newest(held, n).len() == held.len(),
        newest(held, n).len() <= n,
        newest(held, n).len() <= held.len(),
        newest(held, n)[newest(held, n).len() - 1 - i] == held[held.len() - 1 - i],
{
}

/// Something kept under a key that nothing was kept under goes after the rest.
/// Where there is no room for it the oldest goes, and only that one.
pub proof fn the_oldest_goes_for_the_newest<K: Key, T>(
    held: Seq<(K, T)>,
    cap: int,
    key: K,
    value: T,
)
    requires
        held.len() <= cap,
        cap >= 1,
        !holds(held, key),
    ensures
        held.len() < cap ==> keeping_too(held, cap, key, value) == held.push((key, value)),
        held.len() == cap ==> keeping_too(held, cap, key, value) == held.skip(1).push(
            (key, value),
        ),
{
    without_none(held, key);
    if held.len() == cap {
        assert(newest(held, cap - 1) =~= held.skip(1));
    }
}

/// Something kept under a key takes the place of what was kept under it, after
/// the rest, and nothing else goes.
pub proof fn what_is_kept_again_takes_its_place<K: Key, T>(
    held: Seq<(K, T)>,
    cap: int,
    key: K,
    value: T,
    at: int,
)
    requires
        held.len() <= cap,
        0 <= at < held.len(),
        held[at].0.same(key),
        forall|i: int| 0 <= i < held.len() && i != at ==> !(#[trigger] held[i]).0.same(key),
    ensures
        keeping_too(held, cap, key, value) == held.remove(at).push((key, value)),
{
    let rest = held.remove(at);
    assert forall|i: int| 0 <= i < rest.len() implies !(#[trigger] rest[i]).0.same(key) by {
        if i < at {
            assert(rest[i] == held[i]);
        } else {
            assert(rest[i] == held[i + 1]);
        }
    }
    without_one(held, key, at);
    without_none(rest, key);
}

/// The last picture is one of the buffer the scene is bound to where there is one
/// and it is as large.
pub proof fn when_a_picture_is_outdated<T>(gpu: Gpu<T>)
    ensures
        gpu.shown is None ==> gpu.outdated(),
        gpu.shown matches Some(shown) ==> (gpu.outdated() <==> shown.size.w != gpu.bound.w
            || shown.size.h != gpu.bound.h),
{
}

} // verus!
