//! Panes: the places on the desktop that windows are shown in.
//!
//! A pane is there before its application is, showing a scene of the
//! compositor's own; it adopts the application's window when that arrives, and
//! it keeps its identity, its slot and its frame throughout.

use crate::geometry::Rect;
use crate::offscreen::Scratch;
use crate::present::Slot;
use crate::time::{elapsed, since, Nanos};
use vstd::prelude::*;

verus! {

/// What the code that draws draws with.
pub trait Kit {
    /// A scene of the compositor's own, standing in for an application.
    type Scene;

    /// What is drawn around a window.
    type Decoration;

    /// How a window is drawn at one instant.
    type Frame;

    /// How a window gets from one such frame to another.
    type Animation;

    /// A picture on the GPU.
    type Texture;
}

/// An application's window, by the number the compositor knows it by.
pub type Window = u64;

/// The identity of a pane. No two that come from one counter are the same.
#[derive(Clone, Copy, Debug, PartialEq, Eq, Structural)]
pub struct PaneId {
    pub id: u64,
}

/// A counter that identities come from: the next one to give out.
#[derive(Debug)]
pub struct Ids {
    pub next: u64,
}

impl Default for Ids {
    fn default() -> (ids: Self)
        ensures
            ids.next == 1,
    {
        Ids { next: 1 }
    }
}

impl PaneId {
    /// An identity that the counter has not given out before.
    pub fn next(ids: &mut Ids) -> (id: Self)
        requires
            old(ids).next < u64::MAX,
        ensures
            id.id == old(ids).next,
            final(ids).next == old(ids).next + 1,
    {
        let id: u64 = ids.next;
        ids.next = id + 1;
        PaneId { id }
    }

    /// The identity as a number, which is what a script knows it by.
    pub fn get(self) -> (id: u64)
        ensures
            id == self.id,
    {
        self.id
    }
}

/// Whether a process is one of a family.
fn is_one_of(pid: u32, family: &[u32]) -> (r: bool)
    ensures
        r == family@.contains(pid),
{
    let mut i: usize = 0;
    while i < family.len()
        invariant
            i <= family.len(),
            forall|k: int| 0 <= k < i ==> family@[k] != pid,
        decreases family.len() - i,
    {
        if family[i] == pid {
            assert(family@[i as int] == pid);
            return true;
        }
        i = i + 1;
    }
    false
}

/// What a pane is showing.
pub enum Content<S> {
    /// An application that has been started and has not shown a window.
    Loading {
        program: String,
        /// The process it is expected from, if that is known.
        pid: Option<u32>,
        /// The file its scene comes from.
        source: String,
        scene: Option<S>,
    },
    /// An application's window.
    Client {
        window: Window,
        /// The scene that stood in for it, while it fades off it.
        scene: Option<S>,
        /// When it began to.
        faded: Option<Nanos>,
    },
    /// A window that is gone, and is still being drawn.
    Leaving { since: Nanos },
}

impl<S> Content<S> {
    /// The same with another scene, where there is room for one.
    pub open spec fn with_scene(self, scene: Option<S>) -> Content<S> {
        match self {
            Content::Loading { program, pid, source, .. } => Content::Loading {
                program,
                pid,
                source,
                scene,
            },
            Content::Client { window, faded, .. } => Content::Client { window, scene, faded },
            Content::Leaving { since } => Content::Leaving { since },
        }
    }
}

/// What is drawn around a pane.
pub enum Frame<D> {
    /// Nobody has decided yet.
    Pending,
    /// Nothing, and that was decided.
    Bare,
    Styled(D),
}

impl<D> Default for Frame<D> {
    fn default() -> (frame: Self)
        ensures
            frame is Pending,
    {
        Frame::Pending
    }
}

/// A place on the desktop that a window is shown in.
pub struct Pane<K: Kit> {
    pub id: PaneId,
    /// Where it is, in logical pixels.
    pub slot: Rect,
    /// The tile a layout holds it in.
    pub placed: Option<Rect>,
    /// The tile it left to be maximised, for the way back.
    pub left_tile: Option<Rect>,
    /// Where it was before it was maximised.
    pub restore: Option<Rect>,
    pub content: Content<K::Scene>,
    pub frame: Frame<K::Decoration>,
    /// When it is taken away, if it is on its way out.
    pub closing_at: Option<Nanos>,
    /// When its client was asked to close, if it was.
    pub asked_at: Option<Nanos>,
    /// Whether its client has answered that.
    pub answered: bool,
    /// When it was opened.
    pub opened: Nanos,
    /// Whether it was opened before its window came.
    pub adopted: bool,
    /// How it is drawn.
    pub drawn: Slot<K::Frame, K::Animation>,
    /// Whether the compositor decides where it goes.
    pub managed: bool,
    /// What it is captured into while it is bent.
    pub scratch: Scratch<K::Texture>,
}

impl<K: Kit> Pane<K> {
    /// A pane as it begins: nothing decided and nothing asked of it.
    pub open spec fn is_new(self, id: u64, slot: Rect, now: Nanos) -> bool {
        &&& self.id.id == id
        &&& self.slot == slot
        &&& self.placed is None
        &&& self.left_tile is None
        &&& self.restore is None
        &&& self.frame is Pending
        &&& self.closing_at is None
        &&& self.asked_at is None
        &&& !self.answered
        &&& self.opened == now
        &&& !self.adopted
        &&& self.drawn.transform is None
        &&& !self.drawn.shown
        &&& self.managed
        &&& self.scratch.wf()
        &&& self.scratch.kept.held.len() == 0
    }

    /// Whether this is a pane that has just been opened for a window.
    pub open spec fn is_mapped(self, id: u64, window: Window, slot: Rect, now: Nanos) -> bool {
        &&& self.is_new(id, slot, now)
        &&& self.content == (Content::<K::Scene>::Client { window, scene: None, faded: None })
    }

    /// The window it shows, if it shows one.
    pub open spec fn shows(self) -> Option<Window> {
        match self.content {
            Content::Client { window, .. } => Some(window),
            _ => None,
        }
    }

    /// The scene it has, if it has one.
    pub open spec fn scene(self) -> Option<K::Scene> {
        match self.content {
            Content::Loading { scene, .. } => scene,
            Content::Client { scene, .. } => scene,
            Content::Leaving { .. } => None,
        }
    }

    /// A pane for an application that has been started.
    pub fn loading(
        ids: &mut Ids,
        program: &str,
        pid: Option<u32>,
        slot: Rect,
        source: String,
        scene: Option<K::Scene>,
        now: Nanos,
    ) -> (pane: Self)
        requires
            old(ids).next < u64::MAX,
        ensures
            final(ids).next == old(ids).next + 1,
            pane.is_new(old(ids).next, slot, now),
            pane.content matches Content::Loading {
                program: its_program,
                pid: its_pid,
                source: its_source,
                scene: its_scene,
            } && its_program@ == program@ && its_pid == pid && its_source == source && its_scene
                == scene,
    {
        Pane {
            id: PaneId::next(ids),
            slot,
            placed: None,
            left_tile: None,
            restore: None,
            content: Content::Loading { program: program.to_owned(), pid, source, scene },
            frame: Frame::Pending,
            closing_at: None,
            asked_at: None,
            answered: false,
            opened: now,
            adopted: false,
            drawn: Slot::default(),
            managed: true,
            scratch: Scratch::default(),
        }
    }

    /// A pane for a window that nobody was waiting for.
    pub fn mapped(ids: &mut Ids, window: Window, slot: Rect, now: Nanos) -> (pane: Self)
        requires
            old(ids).next < u64::MAX,
        ensures
            final(ids).next == old(ids).next + 1,
            pane.is_mapped(old(ids).next, window, slot, now),
    {
        Pane {
            id: PaneId::next(ids),
            slot,
            placed: None,
            left_tile: None,
            restore: None,
            content: Content::Client { window, scene: None, faded: None },
            frame: Frame::Pending,
            closing_at: None,
            asked_at: None,
            answered: false,
            opened: now,
            adopted: false,
            drawn: Slot::default(),
            managed: true,
            scratch: Scratch::default(),
        }
    }

    pub fn managed(&self) -> (r: bool)
        ensures
            r == self.managed,
    {
        self.managed
    }

    /// The compositor does not decide where this pane goes.
    pub fn unmanage(&mut self)
        ensures
            *final(self) == (Pane { managed: false, ..*old(self) }),
    {
        self.managed = false;
    }

    /// How it is drawn.
    pub fn drawn(&self) -> (r: &Slot<K::Frame, K::Animation>)
        ensures
            *r == self.drawn,
    {
        &self.drawn
    }

    /// How it is drawn, to be changed.
    pub fn drawn_mut(&mut self) -> (r: &mut Slot<K::Frame, K::Animation>)
        ensures
            *r == old(self).drawn,
            *final(self) == (Pane { drawn: *final(r), ..*old(self) }),
    {
        &mut self.drawn
    }

    pub fn id(&self) -> (r: PaneId)
        ensures
            r == self.id,
    {
        self.id
    }

    pub fn slot(&self) -> (r: Rect)
        ensures
            r == self.slot,
    {
        self.slot
    }

    pub fn set_slot(&mut self, slot: Rect)
        ensures
            *final(self) == (Pane { slot, ..*old(self) }),
    {
        self.slot = slot;
    }

    /// The tile a layout holds it in.
    pub fn placed(&self) -> (r: Option<Rect>)
        ensures
            r == self.placed,
    {
        self.placed
    }

    pub fn set_placed(&mut self, placed: Rect)
        ensures
            *final(self) == (Pane { placed: Some(placed), ..*old(self) }),
    {
        self.placed = Some(placed);
    }

    /// Leave the tile, for the way back to be kept. Leaving with no tile to
    /// leave forgets nothing.
    pub fn leave_tile(&mut self)
        ensures
            *final(self) == if old(self).placed is Some {
                Pane { placed: None, left_tile: old(self).placed, ..*old(self) }
            } else {
                *old(self)
            },
    {
        if let Some(placed) = self.placed.take() {
            self.left_tile = Some(placed);
        }
    }

    /// Go back to the tile that was left, unless a layout has given it another
    /// since. Either way there is nothing to go back to any more.
    pub fn return_to_tile(&mut self)
        ensures
            *final(self) == (Pane {
                placed: if old(self).placed is Some {
                    old(self).placed
                } else {
                    old(self).left_tile
                },
                left_tile: None,
                ..*old(self)
            }),
    {
        let left = self.left_tile.take();
        if self.placed.is_none() {
            self.placed = left;
        }
    }

    /// No layout holds it, and there is no tile to go back to.
    pub fn untile(&mut self)
        ensures
            *final(self) == (Pane { placed: None, left_tile: None, ..*old(self) }),
    {
        self.placed = None;
        self.left_tile = None;
    }

    /// Where it was before it was maximised.
    pub fn restore(&self) -> (r: Option<Rect>)
        ensures
            r == self.restore,
    {
        self.restore
    }

    pub fn set_restore(&mut self, restore: Option<Rect>)
        ensures
            *final(self) == (Pane { restore, ..*old(self) }),
    {
        self.restore = restore;
    }

    /// Where it was before it was maximised, once.
    pub fn take_restore(&mut self) -> (r: Option<Rect>)
        ensures
            r == old(self).restore,
            *final(self) == (Pane { restore: None, ..*old(self) }),
    {
        self.restore.take()
    }

    pub fn content(&self) -> (r: &Content<K::Scene>)
        ensures
            *r == self.content,
    {
        &self.content
    }

    pub fn frame(&self) -> (r: &Frame<K::Decoration>)
        ensures
            *r == self.frame,
    {
        &self.frame
    }

    /// What is drawn around it, if anything is.
    pub fn decoration(&self) -> (r: Option<&K::Decoration>)
        ensures
            match r {
                Some(decoration) => self.frame == Frame::Styled(*decoration),
                None => !(self.frame is Styled),
            },
    {
        match &self.frame {
            Frame::Styled(decoration) => Some(decoration),
            Frame::Pending | Frame::Bare => None,
        }
    }

    /// What is drawn around it, to be changed.
    pub fn decoration_mut(&mut self) -> (r: Option<&mut K::Decoration>)
        ensures
            match r {
                Some(decoration) => {
                    &&& old(self).frame == Frame::Styled(*decoration)
                    &&& *final(self) == (Pane {
                        frame: Frame::Styled(*final(decoration)),
                        ..*old(self)
                    })
                },
                None => !(old(self).frame is Styled) && *final(self) == *old(self),
            },
    {
        match &mut self.frame {
            Frame::Styled(decoration) => Some(decoration),
            Frame::Pending | Frame::Bare => None,
        }
    }

    /// What it is captured into while it is bent.
    pub fn scratch_mut(&mut self) -> (r: &mut Scratch<K::Texture>)
        ensures
            *r == old(self).scratch,
            *final(self) == (Pane { scratch: *final(r), ..*old(self) }),
    {
        &mut self.scratch
    }

    pub fn set_frame(&mut self, frame: Frame<K::Decoration>)
        ensures
            *final(self) == (Pane { frame, ..*old(self) }),
    {
        self.frame = frame;
    }

    /// When it is taken away.
    pub fn closing_at(&self) -> (r: Option<Nanos>)
        ensures
            r == self.closing_at,
    {
        self.closing_at
    }

    pub fn begin_closing(&mut self, due: Nanos)
        ensures
            *final(self) == (Pane { closing_at: Some(due), ..*old(self) }),
    {
        self.closing_at = Some(due);
    }

    pub fn stop_closing(&mut self)
        ensures
            *final(self) == (Pane { closing_at: None, ..*old(self) }),
    {
        self.closing_at = None;
    }

    /// When its client was asked to close.
    pub fn asked_at(&self) -> (r: Option<Nanos>)
        ensures
            r == self.asked_at,
    {
        self.asked_at
    }

    pub fn mark_asked(&mut self, at: Nanos)
        ensures
            *final(self) == (Pane { asked_at: Some(at), ..*old(self) }),
    {
        self.asked_at = Some(at);
    }

    pub fn forget_asked(&mut self)
        ensures
            *final(self) == (Pane { asked_at: None, ..*old(self) }),
    {
        self.asked_at = None;
    }

    /// Whether its client has answered that.
    pub fn answered(&self) -> (r: bool)
        ensures
            r == self.answered,
    {
        self.answered
    }

    pub fn mark_answered(&mut self)
        ensures
            *final(self) == (Pane { answered: true, ..*old(self) }),
    {
        self.answered = true;
    }

    pub fn settled_answer(&mut self)
        ensures
            *final(self) == (Pane { answered: false, ..*old(self) }),
    {
        self.answered = false;
    }

    /// Whether it is on its way out, in any of the three ways it can be.
    pub fn leaving(&self) -> (r: bool)
        ensures
            r == (self.closing_at is Some || self.asked_at is Some || self.content is Leaving),
    {
        self.closing_at.is_some() || self.asked_at.is_some() || match &self.content {
            Content::Leaving { .. } => true,
            _ => false,
        }
    }

    /// The window it shows.
    pub fn client(&self) -> (r: Option<Window>)
        ensures
            r == self.shows(),
    {
        match &self.content {
            Content::Client { window, .. } => Some(*window),
            _ => None,
        }
    }

    /// Whether its application has not shown a window yet.
    pub fn is_loading(&self) -> (r: bool)
        ensures
            r == (self.content is Loading),
    {
        match &self.content {
            Content::Loading { .. } => true,
            _ => false,
        }
    }

    /// Whether it is waiting for a process out of this family.
    pub open spec fn waits_for(self, family: Seq<u32>) -> bool {
        match self.content {
            Content::Loading { pid: Some(pid), .. } => family.contains(pid),
            _ => false,
        }
    }

    /// Whether it is waiting for a process out of this family.
    pub fn awaits(&self, family: &[u32]) -> (r: bool)
        ensures
            r == self.waits_for(family@),
    {
        match &self.content {
            Content::Loading { pid: Some(pid), .. } => is_one_of(*pid, family),
            _ => false,
        }
    }

    /// Show an application's window from now on. The scene that stood in for
    /// it stays, to fade off it.
    pub fn adopt(&mut self, window: Window)
        ensures
            *final(self) == (Pane {
                content: Content::Client { window, scene: old(self).scene(), faded: None },
                adopted: true,
                ..*old(self)
            }),
    {
        let scene = match &mut self.content {
            Content::Loading { scene, .. } => scene.take(),
            Content::Client { scene, .. } => scene.take(),
            Content::Leaving { .. } => None,
        };
        self.content = Content::Client { window, scene, faded: None };
        self.adopted = true;
    }

    /// Begin to fade the scene off the window, if there is one and it has not
    /// begun. Says whether it began now.
    pub fn fade(&mut self, now: Nanos) -> (began: bool)
        ensures
            began == (old(self).content matches Content::Client {
                scene: Some(_),
                faded: None,
                ..
            }),
            match old(self).content {
                Content::Client { window, scene: Some(scene), faded: None } => *final(self) == (
                Pane {
                    content: Content::Client { window, scene: Some(scene), faded: Some(now) },
                    ..*old(self)
                }),
                _ => *final(self) == *old(self),
            },
    {
        match &mut self.content {
            Content::Client { scene, faded, .. } => {
                if scene.is_some() && faded.is_none() {
                    *faded = Some(now);
                    true
                } else {
                    false
                }
            },
            _ => false,
        }
    }

    /// Whether the scene has faded off the window.
    pub fn faded(&self, now: Nanos, over: Nanos) -> (r: bool)
        ensures
            r == (self.content matches Content::Client { faded: Some(began), .. } && elapsed(
                now,
                began,
            ) >= over),
    {
        match &self.content {
            Content::Client { faded: Some(began), .. } => since(now, *began) >= over,
            _ => false,
        }
    }

    /// How far the scene has faded off the window: not at all, or the part of
    /// `over` that has passed. A fade that takes no time is over at once.
    pub fn scene_alpha(&self, now: Nanos, over: Nanos) -> (r: Fade)
        ensures
            r == match self.content {
                Content::Client { faded: Some(began), .. } => if over == 0 {
                    Fade::Over
                } else {
                    Fade::Through { passed: elapsed(now, began) as Nanos, over }
                },
                _ => Fade::Whole,
            },
    {
        match &self.content {
            Content::Client { faded: Some(began), .. } => if over == 0 {
                Fade::Over
            } else {
                Fade::Through { passed: since(now, *began), over }
            },
            _ => Fade::Whole,
        }
    }

    /// The window fills the pane: the scene goes. Says whether there was one.
    pub fn filled(&mut self) -> (r: bool)
        ensures
            r == (old(self).content is Client && old(self).scene() is Some),
            *final(self) == match old(self).content {
                Content::Client { window, faded, .. } => Pane {
                    content: Content::Client { window, scene: None, faded },
                    ..*old(self)
                },
                _ => *old(self),
            },
    {
        match &mut self.content {
            Content::Client { scene, .. } => scene.take().is_some(),
            _ => false,
        }
    }

    /// Whether there is a scene of the compositor's own to draw.
    pub fn has_scene(&self) -> (r: bool)
        ensures
            r == (self.scene() is Some),
    {
        match &self.content {
            Content::Loading { scene, .. } => scene.is_some(),
            Content::Client { scene, .. } => scene.is_some(),
            Content::Leaving { .. } => false,
        }
    }

    /// Whether it was opened before its window came.
    pub fn adopted(&self) -> (r: bool)
        ensures
            r == self.adopted,
    {
        self.adopted
    }

    /// The process its application is expected from, if it is still waiting.
    pub fn expect(&mut self, pid: u32)
        ensures
            *final(self) == match old(self).content {
                Content::Loading { program, source, scene, .. } => Pane {
                    content: Content::Loading { program, pid: Some(pid), source, scene },
                    ..*old(self)
                },
                _ => *old(self),
            },
    {
        if let Content::Loading { pid: waiting, .. } = &mut self.content {
            *waiting = Some(pid);
        }
    }

    /// The window is gone; the pane is still drawn.
    pub fn leave(&mut self, now: Nanos)
        ensures
            *final(self) == (Pane { content: Content::Leaving { since: now }, ..*old(self) }),
    {
        self.content = Content::Leaving { since: now };
    }

    /// Whether an application that has not shown a window has been waited for
    /// long enough.
    pub fn expired(&self, now: Nanos, patience: Nanos) -> (r: bool)
        ensures
            r == (self.content is Loading && elapsed(now, self.opened) >= patience),
    {
        self.is_loading() && since(now, self.opened) >= patience
    }

    /// The scene of the compositor's own, to be changed.
    pub fn scene_mut(&mut self) -> (r: Option<&mut K::Scene>)
        ensures
            match r {
                Some(scene) => {
                    &&& old(self).scene() == Some(*scene)
                    &&& *final(self) == (Pane {
                        content: old(self).content.with_scene(Some(*final(scene))),
                        ..*old(self)
                    })
                },
                None => old(self).scene() is None && *final(self) == *old(self),
            },
    {
        match &mut self.content {
            Content::Loading { scene, .. } => scene.as_mut(),
            Content::Client { scene, .. } => scene.as_mut(),
            Content::Leaving { .. } => None,
        }
    }

    /// How long ago it was opened.
    pub fn waited(&self, now: Nanos) -> (r: Nanos)
        ensures
            r == elapsed(now, self.opened),
    {
        since(now, self.opened)
    }

    /// The program it is waiting for.
    pub fn program(&self) -> (r: Option<&str>)
        ensures
            match r {
                Some(name) => self.content matches Content::Loading { program, .. } && program@
                    == name@,
                None => !(self.content is Loading),
            },
    {
        match &self.content {
            Content::Loading { program, .. } => Some(program.as_str()),
            _ => None,
        }
    }
}

/// However a pane is drawn, it lives where it lived: changing how it is drawn
/// moves no window, takes it out of no tile and forgets nothing it is to be
/// restored to.
pub proof fn a_transform_moves_no_window<K: Kit>(before: Pane<K>, after: Pane<K>)
    requires
        after == (Pane { drawn: after.drawn, ..before }),
    ensures
        after.slot == before.slot,
        after.placed == before.placed,
        after.left_tile == before.left_tile,
        after.restore == before.restore,
        after.shows() == before.shows(),
{
}

/// How far a scene has faded off the window under it.
#[derive(Clone, Copy, Debug, PartialEq, Eq, Structural)]
pub enum Fade {
    /// It has not begun to.
    Whole,
    /// This much of the time it takes has passed.
    Through { passed: Nanos, over: Nanos },
    /// There is nothing left of it.
    Over,
}

/// The panes there are, bottom of the stack first.
pub struct Panes<K: Kit> {
    pub panes: Vec<Pane<K>>,
    /// Whether one was opened or removed since the last look.
    pub changed: bool,
}

impl<K: Kit> Default for Panes<K> {
    fn default() -> (panes: Self)
        ensures
            panes.panes@ == Seq::<Pane<K>>::empty(),
            !panes.changed,
    {
        Panes { panes: Vec::new(), changed: false }
    }
}

/// The identities of some panes.
pub open spec fn ids_of<K: Kit>(panes: Seq<Pane<K>>) -> Seq<PaneId> {
    Seq::new(panes.len(), |i: int| panes[i].id)
}

/// Whether no two panes have the same identity, and none has one that is still
/// to be given out.
pub open spec fn distinct<K: Kit>(panes: Seq<Pane<K>>, next: u64) -> bool {
    &&& forall|i: int| 0 <= i < panes.len() ==> (#[trigger] panes[i]).id.id < next
    &&& forall|i: int, j: int|
        0 <= i < j < panes.len() ==> (#[trigger] panes[i]).id != (#[trigger] panes[j]).id
}

/// The panes that have another identity, in their order.
pub open spec fn others<K: Kit>(panes: Seq<Pane<K>>, id: PaneId) -> Seq<Pane<K>>
    decreases panes.len(),
{
    if panes.len() == 0 {
        panes
    } else {
        let before = others(panes.drop_last(), id);
        if panes.last().id == id {
            before
        } else {
            before.push(panes.last())
        }
    }
}

/// Whether pane `i` is the first with an identity.
pub open spec fn is_first_with<K: Kit>(panes: Seq<Pane<K>>, id: PaneId, i: int) -> bool {
    &&& 0 <= i < panes.len()
    &&& panes[i].id == id
    &&& forall|k: int| 0 <= k < i ==> (#[trigger] panes[k]).id != id
}

/// Whether there is no pane with an identity.
pub open spec fn none_with<K: Kit>(panes: Seq<Pane<K>>, id: PaneId) -> bool {
    forall|k: int| 0 <= k < panes.len() ==> (#[trigger] panes[k]).id != id
}

/// The first pane that shows a window.
pub open spec fn first_showing<K: Kit>(panes: Seq<Pane<K>>, window: Window) -> Option<int>
    decreases panes.len(),
{
    if panes.len() == 0 {
        None
    } else {
        match first_showing(panes.drop_last(), window) {
            Some(i) => Some(i),
            None => if panes.last().shows() == Some(window) {
                Some(panes.len() - 1)
            } else {
                None
            },
        }
    }
}

/// A pane that is found shows the window, and none before it does.
pub proof fn first_showing_is_first<K: Kit>(panes: Seq<Pane<K>>, window: Window)
    ensures
        match first_showing(panes, window) {
            Some(i) => {
                &&& 0 <= i < panes.len()
                &&& panes[i].shows() == Some(window)
                &&& forall|k: int| 0 <= k < i ==> (#[trigger] panes[k]).shows() != Some(window)
            },
            None => forall|k: int|
                0 <= k < panes.len() ==> (#[trigger] panes[k]).shows() != Some(window),
        },
    decreases panes.len(),
{
    if panes.len() > 0 {
        let short = panes.drop_last();
        first_showing_is_first(short, window);
        assert forall|k: int| 0 <= k < short.len() implies short[k] == panes[k] by {}
    }
}

/// Where the first pane is that shows a window.
fn find_showing<K: Kit>(panes: &Vec<Pane<K>>, window: Window) -> (at: Option<usize>)
    ensures
        match at {
            Some(i) => i < panes.len() && first_showing(panes@, window) == Some(i as int),
            None => first_showing(panes@, window) is None,
        },
{
    proof {
        first_showing_is_first(panes@, window);
    }
    let ghost first = first_showing(panes@, window);
    let mut i: usize = 0;
    while i < panes.len()
        invariant
            i <= panes.len(),
            forall|k: int| 0 <= k < i ==> (#[trigger] panes@[k]).shows() != Some(window),
            first == first_showing(panes@, window),
            match first {
                Some(i) => {
                    &&& 0 <= i < panes@.len()
                    &&& panes@[i].shows() == Some(window)
                    &&& forall|k: int|
                        0 <= k < i ==> (#[trigger] panes@[k]).shows() != Some(window)
                },
                None => forall|k: int|
                    0 <= k < panes@.len() ==> (#[trigger] panes@[k]).shows() != Some(window),
            },
        decreases panes.len() - i,
    {
        if let Some(shown) = panes[i].client() {
            if shown == window {
                return Some(i);
            }
        }
        i = i + 1;
    }
    None
}

impl<K: Kit> Panes<K> {
    /// All of them, bottom of the stack first.
    pub fn all(&self) -> (r: &[Pane<K>])
        ensures
            r@ == self.panes@,
    {
        self.panes.as_slice()
    }

    pub fn len(&self) -> (n: usize)
        ensures
            n == self.panes.len(),
    {
        self.panes.len()
    }

    fn find(&self, id: PaneId) -> (at: Option<usize>)
        ensures
            match at {
                Some(i) => is_first_with(self.panes@, id, i as int),
                None => none_with(self.panes@, id),
            },
    {
        let mut i: usize = 0;
        while i < self.panes.len()
            invariant
                i <= self.panes.len(),
                forall|k: int| 0 <= k < i ==> (#[trigger] self.panes@[k]).id != id,
            decreases self.panes.len() - i,
        {
            if self.panes[i].id == id {
                return Some(i);
            }
            i = i + 1;
        }
        None
    }

    /// The pane of an identity.
    pub fn get(&self, id: PaneId) -> (r: Option<&Pane<K>>)
        ensures
            match r {
                Some(pane) => exists|i: int| #[trigger]
                    is_first_with(self.panes@, id, i) && self.panes@[i] == *pane,
                None => none_with(self.panes@, id),
            },
    {
        match self.find(id) {
            Some(i) => Some(&self.panes[i]),
            None => None,
        }
    }

    /// The pane of an identity, to be changed.
    pub fn get_mut(&mut self, id: PaneId) -> (r: Option<&mut Pane<K>>)
        ensures
            final(self).changed == old(self).changed,
            match r {
                Some(pane) => exists|i: int|
                    {
                        &&& #[trigger] is_first_with(old(self).panes@, id, i)
                        &&& old(self).panes@[i] == *pane
                        &&& final(self).panes@ == old(self).panes@.update(i, *final(pane))
                    },
                None => none_with(old(self).panes@, id) && final(self).panes@ == old(self).panes@,
            },
    {
        match self.find(id) {
            Some(i) => Some(&mut self.panes[i]),
            None => None,
        }
    }

    /// The pane a script addresses by a number.
    pub fn by_script_id(&self, id: u64) -> (r: Option<&Pane<K>>)
        ensures
            match r {
                Some(pane) => exists|i: int| #[trigger]
                    is_first_with(self.panes@, PaneId { id }, i) && self.panes@[i] == *pane,
                None => none_with(self.panes@, PaneId { id }),
            },
    {
        self.get(PaneId { id })
    }

    /// The pane that shows a window.
    pub fn of(&self, window: Window) -> (r: Option<&Pane<K>>)
        ensures
            match r {
                Some(pane) => first_showing(self.panes@, window) matches Some(i) && self.panes@[i]
                    == *pane,
                None => first_showing(self.panes@, window) is None,
            },
    {
        match find_showing(&self.panes, window) {
            Some(i) => Some(&self.panes[i]),
            None => None,
        }
    }

    /// The identity of the pane that shows a window.
    pub fn id_of(&self, window: Window) -> (r: Option<PaneId>)
        ensures
            match r {
                Some(id) => first_showing(self.panes@, window) matches Some(i) && self.panes@[i].id
                    == id,
                None => first_showing(self.panes@, window) is None,
            },
    {
        match find_showing(&self.panes, window) {
            Some(i) => Some(self.panes[i].id),
            None => None,
        }
    }

    /// The topmost pane that is waiting for a process out of this family.
    pub fn awaiting(&self, family: &[u32]) -> (r: Option<PaneId>)
        ensures
            match r {
                Some(id) => exists|i: int|
                    {
                        &&& 0 <= i < self.panes.len()
                        &&& (#[trigger] self.panes@[i]).waits_for(family@)
                        &&& self.panes@[i].id == id
                        &&& forall|k: int|
                            i < k < self.panes.len() ==> !(#[trigger] self.panes@[k]).waits_for(
                                family@,
                            )
                    },
                None => forall|k: int|
                    0 <= k < self.panes.len() ==> !(#[trigger] self.panes@[k]).waits_for(family@),
            },
    {
        let mut i: usize = self.panes.len();
        while i > 0
            invariant
                i <= self.panes.len(),
                forall|k: int|
                    i <= k < self.panes.len() ==> !(#[trigger] self.panes@[k]).waits_for(family@),
            decreases i,
        {
            i = i - 1;
            if self.panes[i].awaits(family) {
                assert(self.panes@[i as int].waits_for(family@));
                return Some(self.panes[i].id);
            }
        }
        None
    }

    /// Put a pane on top of the stack.
    pub fn open(&mut self, pane: Pane<K>) -> (id: PaneId)
        ensures
            id == pane.id,
            final(self).panes@ == old(self).panes@.push(pane),
            final(self).changed,
    {
        let id = pane.id;
        self.panes.push(pane);
        self.changed = true;
        id
    }

    /// Take a pane away. Says whether it was there.
    pub fn remove(&mut self, id: PaneId) -> (removed: bool)
        ensures
            removed == !none_with(old(self).panes@, id),
            final(self).panes@ == others(old(self).panes@, id),
            final(self).changed == (old(self).changed || removed),
    {
        let ghost all = self.panes@;
        let mut i: usize = 0;
        let mut seen: usize = 0;
        let len: usize = self.panes.len();
        let mut removed = false;
        assert(all.subrange(0, 0) =~= Seq::<Pane<K>>::empty());
        while seen < len
            invariant
                i <= seen <= len == all.len(),
                self.panes.len() == i + (len - seen),
                self.changed == old(self).changed,
                self.panes@.subrange(0, i as int) == others(all.subrange(0, seen as int), id),
                self.panes@.subrange(i as int, self.panes.len() as int) == all.subrange(
                    seen as int,
                    len as int,
                ),
                removed == !none_with(all.subrange(0, seen as int), id),
            decreases len - seen,
        {
            let ghost before = all.subrange(0, seen as int);
            let ghost upto = all.subrange(0, seen + 1);
            proof {
                assert(upto.drop_last() =~= before);
                let rest = self.panes@.subrange(i as int, self.panes.len() as int);
                assert(rest[0] == all.subrange(seen as int, len as int)[0]);
                assert(upto.last() == self.panes@[i as int]);
                assert forall|k: int| 0 <= k < seen implies before[k] == upto[k] by {}
                assert(upto[seen as int] == upto.last());
            }
            let ghost front = self.panes@.subrange(0, i as int);
            let ghost rest = all.subrange(seen as int, len as int);
            assert(rest.drop_first() =~= all.subrange(seen + 1, len as int));
            assert(self.panes@.subrange(i as int, self.panes.len() as int) == rest);
            if self.panes[i].id == id {
                let _ = self.panes.remove(i);
                removed = true;
                assert(self.panes@.subrange(0, i as int) =~= front);
                assert(self.panes@.subrange(i as int, self.panes.len() as int)
                    =~= rest.drop_first());
            } else {
                i = i + 1;
                assert(self.panes@.subrange(i as int, self.panes.len() as int)
                    =~= rest.drop_first());
                assert(self.panes@.subrange(0, i as int) =~= front.push(upto.last()));
                assert(!removed ==> none_with(upto, id));
                assert(removed ==> !none_with(upto, id)) by {
                    if removed {
                        let k = choose|k: int| 0 <= k < before.len() && (#[trigger] before[k]).id
                            == id;
                        assert(upto[k].id == id);
                    }
                }
            }
            seen = seen + 1;
        }
        assert(all.subrange(0, len as int) =~= all);
        assert(self.panes@.subrange(0, i as int) =~= self.panes@);
        self.changed = self.changed || removed;
        removed
    }

    /// The pane for a window that has appeared: the one that shows it, or else
    /// a new one on top of the stack.
    pub fn mapped(&mut self, ids: &mut Ids, window: Window, slot: Rect, now: Nanos) -> (id: PaneId)
        requires
            first_showing(old(self).panes@, window) is None ==> old(ids).next < u64::MAX,
        ensures
            final(self).changed == old(self).changed,
            match first_showing(old(self).panes@, window) {
                Some(i) => {
                    &&& id == old(self).panes@[i].id
                    &&& final(self).panes@ == old(self).panes@
                    &&& final(ids).next == old(ids).next
                },
                None => {
                    &&& id.id == old(ids).next
                    &&& final(ids).next == old(ids).next + 1
                    &&& final(self).panes.len() == old(self).panes.len() + 1
                    &&& final(self).panes@.drop_last() == old(self).panes@
                    &&& final(self).panes@.last().is_mapped(id.id, window, slot, now)
                },
            },
    {
        if let Some(existing) = self.id_of(window) {
            return existing;
        }
        let pane = Pane::mapped(ids, window, slot, now);
        let id = pane.id;
        let ghost before = self.panes@;
        self.panes.push(pane);
        assert(self.panes@.drop_last() =~= before);
        id
    }
}

/// The panes left once the windows of a stack, bottom first, have each taken
/// the first one left that shows it.
pub open spec fn left_after<K: Kit>(panes: Seq<Pane<K>>, stack: Seq<(Window, Rect)>) -> Seq<Pane<K>>
    decreases stack.len(),
{
    if stack.len() == 0 {
        panes
    } else {
        let left = left_after(panes, stack.drop_last());
        match first_showing(left, stack.last().0) {
            Some(i) => left.remove(i),
            None => left,
        }
    }
}

/// How many windows of a stack have no pane to take.
pub open spec fn newcomers<K: Kit>(panes: Seq<Pane<K>>, stack: Seq<(Window, Rect)>) -> nat
    decreases stack.len(),
{
    if stack.len() == 0 {
        0
    } else {
        newcomers(panes, stack.drop_last()) + if first_showing(
            left_after(panes, stack.drop_last()),
            stack.last().0,
        ) is None {
            1nat
        } else {
            0
        }
    }
}

/// The panes that show no window, in their order.
pub open spec fn waiting<K: Kit>(panes: Seq<Pane<K>>) -> Seq<Pane<K>>
    decreases panes.len(),
{
    if panes.len() == 0 {
        panes
    } else {
        let before = waiting(panes.drop_last());
        if panes.last().shows() is None {
            before.push(panes.last())
        } else {
            before
        }
    }
}

/// The slot of a pane whose window the space has at `found`: a window with no
/// size says nothing about where its pane is.
pub open spec fn slot_for(slot: Rect, found: Rect) -> Rect {
    if found.size.w > 0 && found.size.h > 0 {
        found
    } else {
        slot
    }
}

/// Whether `pane` is the one for a window of the stack, out of the panes left
/// to it: the first that shows it, with its slot brought up to date, or else a
/// new one.
pub open spec fn pane_for<K: Kit>(
    pane: Pane<K>,
    left: Seq<Pane<K>>,
    entry: (Window, Rect),
    fresh: u64,
    now: Nanos,
) -> bool {
    match first_showing(left, entry.0) {
        Some(i) => pane == (Pane { slot: slot_for(left[i].slot, entry.1), ..left[i] }),
        None => pane.is_mapped(fresh, entry.0, entry.1, now),
    }
}

proof fn waiting_without_a_client<K: Kit>(panes: Seq<Pane<K>>, i: int)
    requires
        0 <= i < panes.len(),
        panes[i].shows() is Some,
    ensures
        waiting(panes.remove(i)) == waiting(panes),
    decreases panes.len(),
{
    let short = panes.drop_last();
    if i == panes.len() - 1 {
        assert(panes.remove(i) =~= short);
    } else {
        waiting_without_a_client(short, i);
        assert(panes.remove(i).drop_last() =~= short.remove(i));
        assert(panes.remove(i).last() == panes.last());
    }
}

/// Bringing the panes up to date with a stack of windows takes no pane away
/// that is still waiting for one, and keeps those in their order.
pub proof fn what_is_waiting_is_kept<K: Kit>(panes: Seq<Pane<K>>, stack: Seq<(Window, Rect)>)
    ensures
        waiting(left_after(panes, stack)) == waiting(panes),
    decreases stack.len(),
{
    if stack.len() > 0 {
        let left = left_after(panes, stack.drop_last());
        what_is_waiting_is_kept(panes, stack.drop_last());
        first_showing_is_first(left, stack.last().0);
        if let Some(i) = first_showing(left, stack.last().0) {
            waiting_without_a_client(left, i);
        }
    }
}

/// Whether two runs of identities are the same.
fn same_ids<K: Kit>(before: &Vec<PaneId>, panes: &Vec<Pane<K>>) -> (r: bool)
    ensures
        r == (before@ == ids_of(panes@)),
{
    if before.len() != panes.len() {
        return false;
    }
    let mut i: usize = 0;
    while i < panes.len()
        invariant
            i <= panes.len() == before.len(),
            forall|k: int| 0 <= k < i ==> before@[k] == (#[trigger] panes@[k]).id,
        decreases panes.len() - i,
    {
        if before[i] != panes[i].id {
            assert(before@[i as int] != ids_of(panes@)[i as int]);
            return false;
        }
        i = i + 1;
    }
    assert(before@ =~= ids_of(panes@));
    true
}

impl<K: Kit> Panes<K> {
    fn ids(&self) -> (ids: Vec<PaneId>)
        ensures
            ids@ == ids_of(self.panes@),
    {
        let mut ids: Vec<PaneId> = Vec::new();
        let mut i: usize = 0;
        while i < self.panes.len()
            invariant
                i <= self.panes.len(),
                ids.len() == i,
                forall|k: int| 0 <= k < i ==> ids@[k] == (#[trigger] self.panes@[k]).id,
            decreases self.panes.len() - i,
        {
            ids.push(self.panes[i].id);
            i = i + 1;
        }
        assert(ids@ =~= ids_of(self.panes@));
        ids
    }

    /// Bring the panes up to date with the windows there are, bottom of the
    /// stack first, each with where it is.
    ///
    /// The panes take the order of the stack. A window keeps the pane it has
    /// and gets one if it has none; a pane whose window is gone goes with it,
    /// and one that is waiting for its application stays, on top. Says whether
    /// anything came, went or changed places.
    pub fn sync(&mut self, ids: &mut Ids, stack: &[(Window, Rect)], now: Nanos) -> (changed: bool)
        requires
            old(ids).next + stack.len() <= u64::MAX,
        ensures
            !final(self).changed,
            changed == (old(self).changed || ids_of(old(self).panes@) != ids_of(
                final(self).panes@,
            )),
            final(ids).next == old(ids).next + newcomers(old(self).panes@, stack@),
            final(self).panes.len() == stack.len() + waiting(old(self).panes@).len(),
            forall|k: int|
                0 <= k < stack.len() ==> pane_for(
                    #[trigger] final(self).panes@[k],
                    left_after(old(self).panes@, stack@.take(k)),
                    stack@[k],
                    (old(ids).next + newcomers(old(self).panes@, stack@.take(k))) as u64,
                    now,
                ),
            final(self).panes@.skip(stack.len() as int) == waiting(old(self).panes@),
            forall|k: int|
                0 <= k < stack.len() && stack@[k].1.size.w > 0 && stack@[k].1.size.h > 0 ==> (
                #[trigger] final(self).panes@[k]).slot == stack@[k].1,
            forall|k: int|
                0 <= k < stack.len() && (stack@[k].1.size.w <= 0 || stack@[k].1.size.h <= 0) ==> {
                    let pane = #[trigger] final(self).panes@[k];
                    ||| pane.id.id >= old(ids).next && pane.slot == stack@[k].1
                    ||| exists|j: int|
                        0 <= j < old(self).panes.len() && pane == #[trigger] old(self).panes@[j]
                },
            forall|k: int|
                0 <= k < stack.len() ==> ((#[trigger] final(self).panes@[k]).content matches
                    Content::Client { window, .. } && window == stack@[k].0),
            forall|k: int|
                stack.len() <= k < final(self).panes.len() ==> !((
                #[trigger] final(self).panes@[k]).content is Client),
            distinct(old(self).panes@, old(ids).next) ==> distinct(
                final(self).panes@,
                final(ids).next,
            ),
    {
        let before = self.ids();
        let ghost all = self.panes@;
        let ghost first = ids.next;
        let mut held: Vec<Pane<K>> = Vec::new();
        std::mem::swap(&mut held, &mut self.panes);
        let mut ordered: Vec<Pane<K>> = Vec::new();
        let mut k: usize = 0;
        assert(stack@.take(0) =~= Seq::<(Window, Rect)>::empty());
        while k < stack.len()
            invariant
                k <= stack.len(),
                self.changed == old(self).changed,
                first + stack.len() <= u64::MAX,
                newcomers(all, stack@.take(k as int)) <= k,
                ids.next == first + newcomers(all, stack@.take(k as int)),
                held@ == left_after(all, stack@.take(k as int)),
                ordered.len() == k,
                forall|j: int|
                    0 <= j < k ==> pane_for(
                        #[trigger] ordered@[j],
                        left_after(all, stack@.take(j)),
                        stack@[j],
                        (first + newcomers(all, stack@.take(j))) as u64,
                        now,
                    ),
                distinct(all, first) ==> distinct(ordered@ + held@, ids.next),
            decreases stack.len() - k,
        {
            let ghost upto = stack@.take(k + 1);
            let ghost left = held@;
            let ghost done = ordered@;
            let ghost next = ids.next;
            proof {
                assert(upto.drop_last() =~= stack@.take(k as int));
                assert(upto.last() == stack@[k as int]);
                first_showing_is_first(left, stack@[k as int].0);
            }
            let window: Window = stack[k].0;
            let slot = stack[k].1;
            let mut pane = match find_showing(&held, window) {
                Some(i) => held.remove(i),
                None => Pane::mapped(ids, window, slot, now),
            };
            let ghost taken = pane;
            if slot.size.w > 0 && slot.size.h > 0 {
                pane.set_slot(slot);
            }
            proof {
                if distinct(all, first) {
                    match first_showing(left, window) {
                        Some(i) => one_moved_stays_distinct(done, left, i, pane, next),
                        None => one_added_stays_distinct(done, left, pane, next),
                    }
                }
            }
            ordered.push(pane);
            k = k + 1;
        }
        assert(stack@.take(stack.len() as int) =~= stack@);
        let ghost shown = ordered@;
        let ghost left = held@;
        proof {
            what_is_waiting_is_kept(all, stack@);
        }
        let ghost mut gone: int = 0;
        assert(left.take(0) =~= Seq::<Pane<K>>::empty());
        assert(shown + waiting(left.take(0)) =~= shown);
        while held.len() > 0
            invariant
                0 <= gone <= left.len(),
                self.changed == old(self).changed,
                held@ == left.skip(gone),
                ordered@ == shown + waiting(left.take(gone)),
                distinct(all, first) ==> distinct(ordered@ + held@, ids.next),
            decreases held.len(),
        {
            let ghost done = ordered@;
            let ghost rest = held@;
            let pane = held.remove(0);
            proof {
                assert(left.take(gone + 1).drop_last() =~= left.take(gone));
                assert(left.take(gone + 1).last() == pane);
                assert(left.skip(gone).remove(0) =~= left.skip(gone + 1));
                if distinct(all, first) {
                    assert(pane == rest[0]);
                    one_moved_stays_distinct(done, rest, 0, pane, ids.next);
                    one_left_out_stays_distinct(done, rest, ids.next);
                }
            }
            if pane.client().is_none() {
                ordered.push(pane);
                assert(ordered@ =~= shown + waiting(left.take(gone + 1)));
            }
            proof {
                gone = gone + 1;
            }
        }
        proof {
            assert(left.take(gone) =~= left);
            assert(ordered@.skip(stack.len() as int) =~= waiting(left));
            assert(ordered@ + held@ =~= ordered@);
            assert forall|k: int| 0 <= k < stack.len() implies {
                let pane = #[trigger] ordered@[k];
                let at = stack@[k].1;
                &&& pane.content matches Content::Client { window, .. } && window == stack@[k].0
                &&& at.size.w > 0 && at.size.h > 0 ==> pane.slot == at
                &&& at.size.w > 0 && at.size.h > 0 || pane.id.id >= first && pane.slot == at
                    || exists|j: int| 0 <= j < all.len() && pane == #[trigger] all[j]
            } by {
                assert(ordered@[k] == shown[k]);
                let fresh = (first + newcomers(all, stack@.take(k))) as u64;
                what_is_left_was_there(all, stack@.take(k));
                a_pane_follows_its_window(all, stack@, k, ordered@[k], fresh, now);
            }
            who_is_waiting(left, all[0]);
            assert forall|k: int| stack.len() <= k < ordered.len() implies !((
            #[trigger] ordered@[k]).content is Client) by {
                assert(ordered@[k] == waiting(left)[k - stack.len()]);
            }
        }
        self.panes = ordered;
        let was = self.changed;
        self.changed = false;
        was || !same_ids(&before, &self.panes)
    }
}

proof fn one_moved_stays_distinct<K: Kit>(
    done: Seq<Pane<K>>,
    left: Seq<Pane<K>>,
    i: int,
    pane: Pane<K>,
    next: u64,
)
    requires
        0 <= i < left.len(),
        pane.id == left[i].id,
        distinct(done + left, next),
    ensures
        distinct(done.push(pane) + left.remove(i), next),
{
    let before = done + left;
    let after = done.push(pane) + left.remove(i);
    let n = done.len() as int;
    let from = |k: int|
        if k < n {
            k
        } else if k == n {
            n + i
        } else if k - 1 < n + i {
            k - 1
        } else {
            k
        };
    assert forall|k: int| 0 <= k < after.len() implies (#[trigger] after[k]).id
        == before[from(k)].id && 0 <= from(k) < before.len() by {}
    assert forall|j: int, k: int| 0 <= j < k < after.len() implies (#[trigger] after[j]).id != (
    #[trigger] after[k]).id by {
        assert(after[j].id == before[from(j)].id);
        assert(after[k].id == before[from(k)].id);
        assert(from(j) != from(k));
    }
}

proof fn one_added_stays_distinct<K: Kit>(
    done: Seq<Pane<K>>,
    left: Seq<Pane<K>>,
    pane: Pane<K>,
    next: u64,
)
    requires
        pane.id.id == next,
        next < u64::MAX,
        distinct(done + left, next),
    ensures
        distinct(done.push(pane) + left, (next + 1) as u64),
{
    let before = done + left;
    let after = done.push(pane) + left;
    let n = done.len() as int;
    let from = |k: int|
        if k < n {
            k
        } else {
            k - 1
        };
    assert forall|k: int| 0 <= k < after.len() && k != n implies (#[trigger] after[k]).id
        == before[from(k)].id && 0 <= from(k) < before.len() by {}
    assert(after[n] == pane);
    assert forall|j: int, k: int| 0 <= j < k < after.len() implies (#[trigger] after[j]).id != (
    #[trigger] after[k]).id by {
        if j != n {
            assert(after[j].id == before[from(j)].id);
            assert(before[from(j)].id.id < next);
        }
        if k != n {
            assert(after[k].id == before[from(k)].id);
            assert(before[from(k)].id.id < next);
        }
        if j != n && k != n {
            assert(from(j) != from(k));
        }
    }
}

proof fn one_left_out_stays_distinct<K: Kit>(done: Seq<Pane<K>>, left: Seq<Pane<K>>, next: u64)
    requires
        left.len() > 0,
        distinct(done + left, next),
    ensures
        distinct(done + left.remove(0), next),
{
    let before = done + left;
    let after = done + left.remove(0);
    let n = done.len() as int;
    let from = |k: int|
        if k < n {
            k
        } else {
            k + 1
        };
    assert forall|k: int| 0 <= k < after.len() implies (#[trigger] after[k]).id
        == before[from(k)].id && 0 <= from(k) < before.len() by {}
    assert forall|j: int, k: int| 0 <= j < k < after.len() implies (#[trigger] after[j]).id != (
    #[trigger] after[k]).id by {
        assert(after[j].id == before[from(j)].id);
        assert(after[k].id == before[from(k)].id);
        assert(from(j) != from(k));
    }
}

/// A pane that was opened for an application, or for a window, with the next
/// identity there is, is told apart from every other.
pub proof fn opening_keeps_panes_distinct<K: Kit>(panes: Seq<Pane<K>>, pane: Pane<K>, next: u64)
    requires
        distinct(panes, next),
        pane.id.id == next,
        next < u64::MAX,
    ensures
        distinct(panes.push(pane), (next + 1) as u64),
{
    one_added_stays_distinct(panes, Seq::empty(), pane, next);
    assert(panes + Seq::<Pane<K>>::empty() =~= panes);
    assert(panes.push(pane) + Seq::<Pane<K>>::empty() =~= panes.push(pane));
}

/// Taking a pane away leaves none with its identity, and the rest as they
/// were.
pub proof fn removing_keeps_panes_distinct<K: Kit>(panes: Seq<Pane<K>>, id: PaneId, next: u64)
    requires
        distinct(panes, next),
    ensures
        none_with(others(panes, id), id),
        distinct(others(panes, id), next),
        others(panes, id).len() <= panes.len(),
        forall|k: int|
            0 <= k < others(panes, id).len() ==> panes.contains(#[trigger] others(panes, id)[k]),
    decreases panes.len(),
{
    if panes.len() > 0 {
        let short = panes.drop_last();
        let before = others(short, id);
        let all = others(panes, id);
        assert forall|i: int| 0 <= i < short.len() implies short[i] == panes[i] by {}
        removing_keeps_panes_distinct(short, id, next);
        assert forall|k: int| 0 <= k < all.len() implies panes.contains(#[trigger] all[k]) by {
            if k < before.len() {
                assert(short.contains(before[k]));
                let i = choose|i: int| 0 <= i < short.len() && short[i] == before[k];
                assert(panes[i] == all[k]);
            } else {
                assert(panes[panes.len() - 1] == all[k]);
            }
        }
        assert forall|i: int, j: int| 0 <= i < j < all.len() implies (#[trigger] all[i]).id != (
        #[trigger] all[j]).id by {
            if j == before.len() {
                assert(short.contains(before[i]));
                let k = choose|k: int| 0 <= k < short.len() && short[k] == before[i];
                assert(panes[k].id != panes[panes.len() - 1].id);
            }
        }
    }
}

/// The pane a window is given shows that window.
pub proof fn a_window_is_shown_in_its_pane<K: Kit>(
    pane: Pane<K>,
    left: Seq<Pane<K>>,
    entry: (Window, Rect),
    fresh: u64,
    now: Nanos,
)
    requires
        pane_for(pane, left, entry, fresh, now),
    ensures
        pane.shows() == Some(entry.0),
{
    first_showing_is_first(left, entry.0);
}

proof fn others_take_nothing_of_it<K: Kit>(
    panes: Seq<Pane<K>>,
    stack: Seq<(Window, Rect)>,
    window: Window,
)
    requires
        first_showing(panes, window) is Some,
        forall|k: int| 0 <= k < stack.len() ==> (#[trigger] stack[k]).0 != window,
    ensures
        ({
            let left = left_after(panes, stack);
            &&& first_showing(left, window) is Some
            &&& left[first_showing(left, window)->0] == panes[first_showing(panes, window)->0]
        }),
    decreases stack.len(),
{
    first_showing_is_first(panes, window);
    if stack.len() > 0 {
        let short = stack.drop_last();
        assert forall|k: int| 0 <= k < short.len() implies (#[trigger] short[k]).0 != window by {
            assert(short[k] == stack[k]);
        }
        others_take_nothing_of_it(panes, short, window);
        let before = left_after(panes, short);
        let after = left_after(panes, stack);
        let other = stack.last().0;
        assert(stack[stack.len() - 1].0 != window);
        first_showing_is_first(before, other);
        first_showing_is_first(before, window);
        first_showing_is_first(after, window);
        if let Some(i) = first_showing(before, other) {
            let j = first_showing(before, window)->0;
            let to = if j < i {
                j
            } else {
                j - 1
            };
            assert(after[to] == before[j]);
            assert forall|k: int| 0 <= k < to implies (#[trigger] after[k]).shows() != Some(
                window,
            ) by {
                if k < i {
                    assert(after[k] == before[k]);
                } else {
                    assert(after[k] == before[k + 1]);
                }
            }
        }
    }
}

/// A window keeps the pane it has: the first window of that number in the
/// stack is given the pane that shows it, as it was but for where it is.
pub proof fn a_window_keeps_its_pane<K: Kit>(
    panes: Seq<Pane<K>>,
    stack: Seq<(Window, Rect)>,
    k: int,
    pane: Pane<K>,
    fresh: u64,
    now: Nanos,
)
    requires
        0 <= k < stack.len(),
        first_showing(panes, stack[k].0) is Some,
        forall|j: int| 0 <= j < k ==> (#[trigger] stack[j]).0 != stack[k].0,
        pane_for(pane, left_after(panes, stack.take(k)), stack[k], fresh, now),
    ensures
        ({
            let held = panes[first_showing(panes, stack[k].0)->0];
            &&& pane == (Pane { slot: slot_for(held.slot, stack[k].1), ..held })
            &&& stack[k].1.size.w > 0 && stack[k].1.size.h > 0 ==> pane.slot == stack[k].1
            &&& stack[k].1.size.w <= 0 || stack[k].1.size.h <= 0 ==> pane.slot == held.slot
        }),
{
    let before = stack.take(k);
    assert forall|j: int| 0 <= j < before.len() implies (#[trigger] before[j]).0
        != stack[k].0 by {
        assert(before[j] == stack[j]);
    }
    others_take_nothing_of_it(panes, before, stack[k].0);
}

proof fn a_stack_takes_its_panes_in_order<K: Kit>(
    panes: Seq<Pane<K>>,
    stack: Seq<(Window, Rect)>,
    k: int,
)
    requires
        0 <= k <= stack.len() <= panes.len(),
        forall|j: int| 0 <= j < stack.len() ==> (#[trigger] panes[j]).shows() == Some(stack[j].0),
    ensures
        left_after(panes, stack.take(k)) == panes.skip(k),
        newcomers(panes, stack.take(k)) == 0,
        k < stack.len() ==> first_showing(panes.skip(k), stack[k].0) == Some(0int),
    decreases k,
{
    if k == 0 {
        assert(stack.take(0) =~= Seq::<(Window, Rect)>::empty());
        assert(panes.skip(0) =~= panes);
    } else {
        a_stack_takes_its_panes_in_order(panes, stack, k - 1);
        assert(stack.take(k).drop_last() =~= stack.take(k - 1));
        assert(stack.take(k).last() == stack[k - 1]);
        assert(panes.skip(k - 1).remove(0) =~= panes.skip(k));
    }
    if k < stack.len() {
        assert(panes.skip(k)[0] == panes[k]);
        first_showing_is_first(panes.skip(k), stack[k].0);
    }
}

proof fn waiting_in_two_parts<K: Kit>(panes: Seq<Pane<K>>, n: int)
    requires
        0 <= n <= panes.len(),
        forall|i: int| 0 <= i < n ==> (#[trigger] panes[i]).shows() is Some,
        forall|i: int| n <= i < panes.len() ==> (#[trigger] panes[i]).shows() is None,
    ensures
        waiting(panes) == panes.skip(n),
    decreases panes.len(),
{
    if panes.len() > 0 {
        let short = panes.drop_last();
        assert forall|i: int| 0 <= i < short.len() implies short[i] == panes[i] by {}
        if n == panes.len() {
            waiting_in_two_parts(short, n - 1);
            assert(panes[n - 1].shows() is Some);
            assert(short.skip(n - 1) =~= panes.skip(n));
        } else {
            waiting_in_two_parts(short, n);
            assert(panes[panes.len() - 1].shows() is None);
            assert(short.skip(n).push(panes.last()) =~= panes.skip(n));
        }
    } else {
        assert(panes.skip(n) =~= panes);
    }
}

/// Panes that are up to date with a stack stay as they are: brought up to date
/// with the same stack again, every window has its pane, nothing comes, nothing
/// goes, and nothing changes places.
pub proof fn nothing_happens_twice<K: Kit>(
    panes: Seq<Pane<K>>,
    stack: Seq<(Window, Rect)>,
    after: Seq<Pane<K>>,
    next: u64,
    now: Nanos,
)
    requires
        stack.len() <= panes.len(),
        forall|j: int| 0 <= j < stack.len() ==> (#[trigger] panes[j]).shows() == Some(stack[j].0),
        forall|j: int| stack.len() <= j < panes.len() ==> (#[trigger] panes[j]).shows() is None,
        after.len() == stack.len() + waiting(panes).len(),
        forall|k: int|
            0 <= k < stack.len() ==> pane_for(
                #[trigger] after[k],
                left_after(panes, stack.take(k)),
                stack[k],
                (next + newcomers(panes, stack.take(k))) as u64,
                now,
            ),
        after.skip(stack.len() as int) == waiting(panes),
    ensures
        ids_of(after) == ids_of(panes),
        newcomers(panes, stack) == 0,
{
    waiting_in_two_parts(panes, stack.len() as int);
    a_stack_takes_its_panes_in_order(panes, stack, stack.len() as int);
    assert(stack.take(stack.len() as int) =~= stack);
    assert forall|k: int| 0 <= k < panes.len() implies after[k].id == panes[k].id by {
        if k < stack.len() {
            a_stack_takes_its_panes_in_order(panes, stack, k);
            assert(panes.skip(k)[0] == panes[k]);
        } else {
            assert(after.skip(stack.len() as int)[k - stack.len()] == after[k]);
            assert(panes.skip(stack.len() as int)[k - stack.len()] == panes[k]);
        }
    }
    assert(ids_of(after) =~= ids_of(panes));
}

/// What a pane shows and what scene it has go by its content alone.
pub proof fn what_a_pane_shows<K: Kit>(pane: Pane<K>, family: Seq<u32>)
    ensures
        match pane.content {
            Content::Loading { pid, scene, .. } => {
                &&& pane.shows() is None
                &&& pane.scene() == scene
                &&& pid is None ==> !pane.waits_for(family)
                &&& pid is Some ==> (pane.waits_for(family) <==> exists|k: int|
                    0 <= k < family.len() && family[k] == pid->0)
            },
            Content::Client { window, scene, .. } => {
                &&& pane.shows() == Some(window)
                &&& pane.scene() == scene
                &&& !pane.waits_for(family)
            },
            Content::Leaving { .. } => {
                &&& pane.shows() is None
                &&& pane.scene() is None
                &&& !pane.waits_for(family)
            },
        },
{
}

/// Another scene changes nothing but the scene, and is the scene wherever there
/// is room for one.
pub proof fn another_scene_is_all_that_changes<K: Kit>(pane: Pane<K>, scene: Option<K::Scene>)
    ensures
        ({
            let after = pane.content.with_scene(scene);
            match pane.content {
                Content::Loading { program, pid, source, .. } => after == (
                Content::Loading { program, pid, source, scene }),
                Content::Client { window, faded, .. } => after == (
                Content::Client { window, scene, faded }),
                Content::Leaving { since } => after == (Content::<K::Scene>::Leaving { since }),
            }
        }),
        pane.content.with_scene(pane.scene()) == pane.content,
{
}

/// A pane that has just been opened for a window shows it, where it was found,
/// and nothing has been decided, asked or drawn of it yet.
pub proof fn a_pane_begins<K: Kit>(
    pane: Pane<K>,
    id: u64,
    window: Window,
    slot: Rect,
    now: Nanos,
)
    ensures
        pane.is_mapped(id, window, slot, now) <==> pane.is_new(id, slot, now) && (
        pane.content matches Content::Client { window: its, scene: None, faded: None }
            && its == window),
        pane.is_new(id, slot, now) ==> {
            &&& pane.id.id == id
            &&& pane.slot.loc.x == slot.loc.x
            &&& pane.slot.loc.y == slot.loc.y
            &&& pane.slot.size.w == slot.size.w
            &&& pane.slot.size.h == slot.size.h
            &&& pane.placed is None && pane.left_tile is None && pane.restore is None
            &&& pane.frame is Pending
            &&& pane.closing_at is None && pane.asked_at is None && pane.answered == false
            &&& pane.opened == now
            &&& pane.adopted == false
            &&& pane.drawn.transform is None && pane.drawn.shown == false
            &&& pane.managed == true
            &&& pane.scratch.kept.held.len() == 0
        },
{
}

/// Identities are told apart one by one: the first pane with one is the only
/// pane with it up to there, and there is none where no pane has it.
pub proof fn panes_go_by_their_identity<K: Kit>(panes: Seq<Pane<K>>, id: PaneId, i: int)
    ensures
        ids_of(panes).len() == panes.len(),
        0 <= i < panes.len() ==> ids_of(panes)[i].id == panes[i].id.id,
        is_first_with(panes, id, i) <==> 0 <= i < panes.len() && panes[i].id.id == id.id && (
        forall|k: int| 0 <= k < i ==> (#[trigger] panes[k]).id.id != id.id),
        none_with(panes, id) <==> !exists|k: int|
            0 <= k < panes.len() && (#[trigger] panes[k]).id.id == id.id,
{
}

/// The panes without one are all the others, in their order: a pane on top is
/// left out exactly where it has that identity.
pub proof fn all_the_others_are_left<K: Kit>(panes: Seq<Pane<K>>, id: PaneId, pane: Pane<K>)
    ensures
        others(Seq::<Pane<K>>::empty(), id).len() == 0,
        pane.id.id == id.id ==> others(panes.push(pane), id) == others(panes, id),
        pane.id.id != id.id ==> others(panes.push(pane), id) == others(panes, id).push(pane),
        none_with(panes, id) ==> others(panes, id) == panes,
    decreases panes.len(),
{
    assert(panes.push(pane).drop_last() =~= panes);
    if panes.len() > 0 {
        let short = panes.drop_last();
        all_the_others_are_left(short, id, pane);
        if none_with(panes, id) {
            assert forall|k: int| 0 <= k < short.len() implies (#[trigger] short[k]).id != id by {
                assert(short[k] == panes[k]);
            }
            assert(panes[panes.len() - 1].id != id);
            assert(short.push(panes.last()) =~= panes);
        }
    }
}

/// The panes that are waiting are those without a window, in their order: a
/// pane on top is one of them exactly where it shows no application's window.
pub proof fn who_is_waiting<K: Kit>(panes: Seq<Pane<K>>, pane: Pane<K>)
    ensures
        waiting(Seq::<Pane<K>>::empty()).len() == 0,
        pane.content is Client ==> waiting(panes.push(pane)) == waiting(panes),
        !(pane.content is Client) ==> waiting(panes.push(pane)) == waiting(panes).push(pane),
        forall|i: int|
            0 <= i < waiting(panes).len() ==> !((#[trigger] waiting(panes)[i]).content is Client)
                && panes.contains(waiting(panes)[i]),
        forall|i: int|
            0 <= i < panes.len() && !((#[trigger] panes[i]).content is Client) ==> waiting(
                panes,
            ).contains(panes[i]),
    decreases panes.len(),
{
    assert(panes.push(pane).drop_last() =~= panes);
    if panes.len() > 0 {
        let short = panes.drop_last();
        let before = waiting(short);
        let all = waiting(panes);
        who_is_waiting(short, pane);
        assert forall|i: int| 0 <= i < all.len() implies !((#[trigger] all[i]).content is Client)
            && panes.contains(all[i]) by {
            if i < before.len() {
                assert(all[i] == before[i]);
                let j = choose|j: int| 0 <= j < short.len() && short[j] == before[i];
                assert(panes[j] == all[i]);
            } else {
                assert(panes[panes.len() - 1] == all[i]);
            }
        }
        assert forall|i: int|
            0 <= i < panes.len() && !((#[trigger] panes[i]).content is Client) implies all.contains(
            panes[i],
        ) by {
            if i < short.len() {
                assert(short[i] == panes[i]);
                assert(before.contains(short[i]));
                let j = choose|j: int| 0 <= j < before.len() && before[j] == short[i];
                assert(all[j] == panes[i]);
            } else {
                assert(all[before.len() as int] == panes[i]);
            }
        }
    }
}

/// What windows have not taken are panes there were, and a window takes one
/// pane or gets a new one.
pub proof fn what_is_left_was_there<K: Kit>(panes: Seq<Pane<K>>, stack: Seq<(Window, Rect)>)
    ensures
        left_after(panes, stack).len() + stack.len() == panes.len() + newcomers(panes, stack),
        newcomers(panes, stack) <= stack.len(),
        forall|i: int|
            0 <= i < left_after(panes, stack).len() ==> panes.contains(
                #[trigger] left_after(panes, stack)[i],
            ),
        stack.len() == 0 ==> left_after(panes, stack) == panes,
    decreases stack.len(),
{
    if stack.len() == 0 {
        assert forall|i: int| 0 <= i < panes.len() implies panes.contains(#[trigger] panes[i]) by {}
    } else {
        let short = stack.drop_last();
        let before = left_after(panes, short);
        let after = left_after(panes, stack);
        what_is_left_was_there(panes, short);
        first_showing_is_first(before, stack.last().0);
        assert forall|i: int| 0 <= i < after.len() implies panes.contains(#[trigger] after[i]) by {
            if let Some(at) = first_showing(before, stack.last().0) {
                if i < at {
                    assert(after[i] == before[i]);
                } else {
                    assert(after[i] == before[i + 1]);
                }
            } else {
                assert(after[i] == before[i]);
            }
        }
    }
}

/// Where no pane shows a window, none is left that does, whatever others took.
proof fn nothing_shows_it_later<K: Kit>(
    panes: Seq<Pane<K>>,
    stack: Seq<(Window, Rect)>,
    window: Window,
)
    requires
        forall|i: int| 0 <= i < panes.len() ==> (#[trigger] panes[i]).shows() != Some(window),
    ensures
        first_showing(left_after(panes, stack), window) is None,
{
    let left = left_after(panes, stack);
    what_is_left_was_there(panes, stack);
    first_showing_is_first(left, window);
    if let Some(i) = first_showing(left, window) {
        assert(panes.contains(left[i]));
        let j = choose|j: int| 0 <= j < panes.len() && panes[j] == left[i];
        assert(panes[j].shows() == Some(window));
    }
}

/// Where a window is found is where its pane is from then on, position and size
/// alike; only a window without a width or without a height moves nothing. The
/// rest of the pane is as it was, or, where the window had no pane, the pane is
/// a new one.
pub proof fn a_pane_follows_its_window<K: Kit>(
    panes: Seq<Pane<K>>,
    stack: Seq<(Window, Rect)>,
    k: int,
    pane: Pane<K>,
    fresh: u64,
    now: Nanos,
)
    requires
        0 <= k < stack.len(),
        pane_for(pane, left_after(panes, stack.take(k)), stack[k], fresh, now),
    ensures
        ({
            let (window, at) = stack[k];
            &&& pane.content matches Content::Client { window: shown, .. } && shown == window
            &&& at.size.w > 0 && at.size.h > 0 ==> pane.slot == at
            &&& (exists|j: int|
                0 <= j < panes.len() && {
                    &&& pane == (Pane { slot: pane.slot, ..#[trigger] panes[j] })
                    &&& at.size.w <= 0 || at.size.h <= 0 ==> pane.slot == panes[j].slot
                }) || pane.is_mapped(fresh, window, at, now)
            &&& (forall|j: int|
                0 <= j < panes.len() ==> !((#[trigger] panes[j]).content matches Content::Client {
                    window: shown,
                    ..
                } && shown == window)) ==> pane.is_mapped(fresh, window, at, now)
        }),
{
    let before = stack.take(k);
    let left = left_after(panes, before);
    let (window, at) = stack[k];
    first_showing_is_first(left, window);
    what_is_left_was_there(panes, before);
    if let Some(i) = first_showing(left, window) {
        assert(panes.contains(left[i]));
        let j = choose|j: int| 0 <= j < panes.len() && panes[j] == left[i];
        assert(pane == (Pane { slot: pane.slot, ..panes[j] }));
        if forall|j: int|
            0 <= j < panes.len() ==> !((#[trigger] panes[j]).content matches Content::Client {
                window: shown,
                ..
            } && shown == window) {
            assert forall|j: int| 0 <= j < panes.len() implies (#[trigger] panes[j]).shows()
                != Some(window) by {}
            nothing_shows_it_later(panes, before, window);
        }
    }
}

} // verus!
