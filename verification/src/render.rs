//! What is drawn in a frame, and in what order.
//!
//! A frame is a list of steps, topmost first. What a step draws is the business
//! of the code that draws; which steps there are, and in what order, is decided
//! here.

use crate::depth::{by_depth, drawing_order, every_node_is_drawn_once};
use crate::geometry::{larger, nearest_coordinate, Point, Rect, Size};
use crate::pane::{PaneId, Window};
use crate::pass::{is_refused, needs_pass, refused, wants_pass, Effect, Programs};
use crate::resizing::Fill;
use crate::time::Nanos;
use vstd::prelude::*;

verus! {

/// How far from the viewer a layer of a style is, seen from the client it is
/// around.
#[derive(Clone, Copy, Debug, PartialEq, Eq, Structural)]
pub enum Depth {
    /// Over the frame and the client.
    Above,
    /// The frame itself, over the client.
    Frame,
    /// Under the client.
    Behind,
}

/// One piece of a pane, in the order it goes into the frame.
#[derive(Clone, Copy, Debug, PartialEq, Eq, Structural)]
pub enum Piece {
    /// The style's layers at one depth, topmost first.
    Layers(Depth),
    /// The client's own surface, or, for a pane whose application has not
    /// arrived, the scene standing in for one.
    Client,
}

/// A pane's pieces, topmost first: what is above, the frame, the client, what
/// is behind.
pub open spec fn pane_order() -> Seq<Piece> {
    seq![
        Piece::Layers(Depth::Above),
        Piece::Layers(Depth::Frame),
        Piece::Client,
        Piece::Layers(Depth::Behind),
    ]
}

/// Walk one pane's pieces in the order they go into the frame, handing each to
/// `piece` with the list to put it in, each once.
pub fn pane_pieces<T, F: FnMut(&mut Vec<T>, Piece)>(into: &mut Vec<T>, mut piece: F)
    requires
        forall|list: &mut Vec<T>|
            *list == *old(into) ==> #[trigger] call_requires(piece, (list, pane_order()[0])),
        forall|before: &mut Vec<T>, list: &mut Vec<T>| #[trigger]
            call_ensures(piece, (before, pane_order()[0]), ()) && *list == *final(before)
                ==> #[trigger] call_requires(piece, (list, pane_order()[1])),
        forall|before: &mut Vec<T>, list: &mut Vec<T>| #[trigger]
            call_ensures(piece, (before, pane_order()[1]), ()) && *list == *final(before)
                ==> #[trigger] call_requires(piece, (list, pane_order()[2])),
        forall|before: &mut Vec<T>, list: &mut Vec<T>| #[trigger]
            call_ensures(piece, (before, pane_order()[2]), ()) && *list == *final(before)
                ==> #[trigger] call_requires(piece, (list, pane_order()[3])),
    ensures
        exists|above: &mut Vec<T>, frame: &mut Vec<T>, client: &mut Vec<T>, behind: &mut Vec<T>|
            {
                &&& *above == *old(into)
                &&& *frame == *final(above)
                &&& *client == *final(frame)
                &&& *behind == *final(client)
                &&& *final(into) == *final(behind)
                &&& #[trigger] call_ensures(piece, (above, pane_order()[0]), ())
                &&& #[trigger] call_ensures(piece, (frame, pane_order()[1]), ())
                &&& #[trigger] call_ensures(piece, (client, pane_order()[2]), ())
                &&& #[trigger] call_ensures(piece, (behind, pane_order()[3]), ())
            },
{
    proof {
        the_client_is_between_the_layers();
    }
    piece(into, Piece::Layers(Depth::Above));
    piece(into, Piece::Layers(Depth::Frame));
    piece(into, Piece::Client);
    piece(into, Piece::Layers(Depth::Behind));
}

/// The client is drawn between two layers of its own style: what is above it
/// and its frame before it, which is over it, and what is behind it after.
pub proof fn the_client_is_between_the_layers()
    ensures
        pane_order().len() == 4,
        pane_order()[0] == Piece::Layers(Depth::Above),
        pane_order()[1] == Piece::Layers(Depth::Frame),
        pane_order()[2] == Piece::Client,
        pane_order()[3] == Piece::Layers(Depth::Behind),
{
}

/// The two questions that together mean whether a later frame of a scene will
/// differ from this one.
pub trait Painted {
    /// Whether something the scene renders has changed since it was drawn.
    spec fn dirty(&self) -> bool;

    /// Whether an animation in the scene is running.
    spec fn moving(&self) -> bool;

    /// Whether something the scene renders has changed. Drawing it spends the
    /// answer.
    fn something_new_to_draw(&self) -> (r: bool)
        ensures
            r == self.dirty(),
    ;

    /// Whether an animation in the scene is still running. It is the question
    /// that costs something, and is not asked of a scene with something new to
    /// draw, which will have another frame in any case.
    fn animation_in_flight(&self) -> (r: bool)
        requires
            !self.dirty(),
        ensures
            r == self.moving(),
    ;
}

/// What one draw produced: the element, and whether there is more to come.
#[derive(Debug)]
pub struct Drawn<E> {
    /// What to put in the frame, if there is anything to put in it.
    pub element: Option<E>,
    /// Whether the scene still has somewhere to go, read before this draw.
    pub animating: bool,
}

impl<E> Drawn<E> {
    /// Ask, then draw, in that order: the draw spends the answer. Whether an
    /// animation is running is asked only of a scene with nothing new to draw.
    pub fn drawing<P: Painted, F: FnOnce(&mut P) -> Option<E>>(painted: &mut P, draw: F) -> (drawn:
        Self)
        requires
            forall|scene: &mut P| *scene == *old(painted) ==> #[trigger] call_requires(
                draw,
                (scene,),
            ),
        ensures
            drawn.animating == (old(painted).dirty() || old(painted).moving()),
            exists|scene: &mut P|
                {
                    &&& *scene == *old(painted)
                    &&& *final(scene) == *final(painted)
                    &&& #[trigger] call_ensures(draw, (scene,), drawn.element)
                },
    {
        let animating = painted.something_new_to_draw() || painted.animation_in_flight();
        let element = draw(painted);
        Drawn { element, animating }
    }
}

/// How many frames are drawn of a scene until one asks for no other, its
/// animation having these ticks left, each of which moves something or does
/// not: every frame ticks, asks and draws, and the next one comes only if this
/// one asked for it.
pub open spec fn frames_until_idle(ticks: Seq<bool>) -> nat
    decreases ticks.len(),
{
    if ticks.len() == 0 {
        1
    } else {
        let dirty = ticks.first();
        let moving = ticks.len() > 1;
        if dirty || moving {
            1 + frames_until_idle(ticks.drop_first())
        } else {
            1
        }
    }
}

/// An animation runs to its end, however many of its ticks move nothing, and
/// then the loop goes idle: after the last tick, and one frame later where that
/// tick left something to draw.
pub proof fn an_animation_runs_to_its_end_and_stops(ticks: Seq<bool>)
    ensures
        frames_until_idle(ticks) == if ticks.len() > 0 && !ticks.last() {
            ticks.len()
        } else {
            ticks.len() + 1
        },
    decreases ticks.len(),
{
    if ticks.len() > 0 {
        an_animation_runs_to_its_end_and_stops(ticks.drop_first());
        if ticks.len() > 1 {
            assert(ticks.drop_first().last() == ticks.last());
        }
    }
}

/// What was captured for a frame: a texture for each window that is bent, and
/// a pass for each whose style masks its client.
#[derive(Debug)]
pub struct Prepared<T, P> {
    pub warps: Vec<(Window, T)>,
    pub passes: Vec<(Window, P)>,
}

/// Where something captured for a window first is.
pub open spec fn captured_at<V>(all: Seq<(Window, V)>, window: Window, i: int) -> bool {
    &&& 0 <= i < all.len()
    &&& all[i].0 == window
    &&& forall|k: int| 0 <= k < i ==> (#[trigger] all[k]).0 != window
}

/// Whether nothing was captured for a window.
pub open spec fn not_captured<V>(all: Seq<(Window, V)>, window: Window) -> bool {
    forall|k: int| 0 <= k < all.len() ==> (#[trigger] all[k]).0 != window
}

fn find_captured<V>(all: &Vec<(Window, V)>, window: Window) -> (r: Option<&V>)
    ensures
        match r {
            Some(value) => exists|i: int| #[trigger]
                captured_at(all@, window, i) && all@[i].1 == *value,
            None => not_captured(all@, window),
        },
{
    let mut i: usize = 0;
    while i < all.len()
        invariant
            i <= all.len(),
            forall|k: int| 0 <= k < i ==> (#[trigger] all@[k]).0 != window,
        decreases all.len() - i,
    {
        if all[i].0 == window {
            assert(captured_at(all@, window, i as int));
            return Some(&all[i].1);
        }
        i = i + 1;
    }
    None
}

impl<T, P> Prepared<T, P> {
    pub fn new() -> (prepared: Self)
        ensures
            prepared.warps@ == Seq::<(Window, T)>::empty(),
            prepared.passes@ == Seq::<(Window, P)>::empty(),
    {
        Prepared { warps: Vec::new(), passes: Vec::new() }
    }

    /// A window was captured to be bent, or it could not be. What its pane keeps
    /// it keeps either way, for the next frame of the same.
    pub fn warped(&mut self, window: Window, texture: Option<T>)
        ensures
            final(self).passes == old(self).passes,
            final(self).warps@ == match texture {
                Some(texture) => old(self).warps@.push((window, texture)),
                None => old(self).warps@,
            },
    {
        if let Some(texture) = texture {
            self.warps.push((window, texture));
        }
    }

    /// A client was captured for a mask, or it was not, for whatever reason.
    /// Says whether what its pane keeps is given back: nothing is drawn from it.
    pub fn masked(&mut self, window: Window, pass: Option<P>) -> (release: bool)
        ensures
            release == (pass is None),
            final(self).warps == old(self).warps,
            final(self).passes@ == match pass {
                Some(pass) => old(self).passes@.push((window, pass)),
                None => old(self).passes@,
            },
    {
        match pass {
            Some(pass) => {
                self.passes.push((window, pass));
                false
            },
            None => true,
        }
    }

    /// The texture captured for a window. It is lent and not taken: a window is
    /// drawn once for every screen it is on.
    pub fn texture(&self, window: Window) -> (r: Option<&T>)
        ensures
            match r {
                Some(texture) => exists|i: int| #[trigger]
                    captured_at(self.warps@, window, i) && self.warps@[i].1 == *texture,
                None => not_captured(self.warps@, window),
            },
    {
        find_captured(&self.warps, window)
    }

    /// The pass captured for a window.
    pub fn pass(&self, window: Window) -> (r: Option<&P>)
        ensures
            match r {
                Some(pass) => exists|i: int| #[trigger]
                    captured_at(self.passes@, window, i) && self.passes@[i].1 == *pass,
                None => not_captured(self.passes@, window),
            },
    {
        find_captured(&self.passes, window)
    }
}

/// What there is to know of a pane before anything is captured of it.
#[derive(Clone, Copy, Debug, PartialEq, Eq, Structural)]
pub struct Candidate {
    pub pane: PaneId,
    /// The window it shows.
    pub window: Option<Window>,
    /// Whether that window has a place.
    pub mapped: bool,
    /// The slot of the pane, its frame with it.
    pub slot: Option<Rect>,
    /// Whether it is drawn as anything but a rectangle.
    pub bent: bool,
}

/// What is captured of a pane.
#[derive(Clone, Copy, Debug, PartialEq, Eq, Structural)]
pub enum Capturing {
    /// Nothing, and what it kept from the last time is given back.
    Release(PaneId),
    /// The whole window, to be bent.
    Warp(PaneId, Window),
    /// The client alone, if its style masks it; if it does not, what it kept
    /// is given back.
    Mask(PaneId, Window),
}

/// Whether a rectangle is on any of some screens.
pub open spec fn on_some_screen(rect: Rect, screens: Seq<Rect>) -> bool {
    exists|i: int| 0 <= i < screens.len() && rect.meets(#[trigger] screens[i])
}

/// Whether a rectangle is on any of some screens.
pub fn on_any_output(rect: Rect, screens: &[Rect]) -> (r: bool)
    ensures
        r == on_some_screen(rect, screens@),
{
    let mut i: usize = 0;
    while i < screens.len()
        invariant
            i <= screens.len(),
            forall|k: int| 0 <= k < i ==> !rect.meets(#[trigger] screens@[k]),
        decreases screens.len() - i,
    {
        if rect.overlaps(screens[i]) {
            assert(rect.meets(screens@[i as int]));
            return true;
        }
        i = i + 1;
    }
    false
}

/// What is captured of a pane: nothing of one without a window, or whose window
/// has no place, or that no screen shows.
pub open spec fn capturing(candidate: Candidate, screens: Seq<Rect>) -> Capturing {
    match candidate.window {
        Some(window) if candidate.mapped && candidate.slot is Some && on_some_screen(
            candidate.slot->0,
            screens,
        ) => if candidate.bent {
            Capturing::Warp(candidate.pane, window)
        } else {
            Capturing::Mask(candidate.pane, window)
        },
        _ => Capturing::Release(candidate.pane),
    }
}

/// What is captured ahead of a frame, pane by pane.
pub fn prepare(candidates: &[Candidate], screens: &[Rect]) -> (plan: Vec<Capturing>)
    ensures
        plan.len() == candidates.len(),
        forall|i: int|
            0 <= i < plan.len() ==> #[trigger] plan@[i] == capturing(candidates@[i], screens@),
{
    let mut plan: Vec<Capturing> = Vec::new();
    let mut i: usize = 0;
    while i < candidates.len()
        invariant
            i <= candidates.len(),
            plan.len() == i,
            forall|k: int|
                0 <= k < i ==> #[trigger] plan@[k] == capturing(candidates@[k], screens@),
        decreases candidates.len() - i,
    {
        let candidate = candidates[i];
        let shown = match candidate.slot {
            Some(slot) => on_any_output(slot, screens),
            None => false,
        };
        let what = match candidate.window {
            Some(window) => if candidate.mapped && shown {
                if candidate.bent {
                    Capturing::Warp(candidate.pane, window)
                } else {
                    Capturing::Mask(candidate.pane, window)
                }
            } else {
                Capturing::Release(candidate.pane)
            },
            None => Capturing::Release(candidate.pane),
        };
        plan.push(what);
        i = i + 1;
    }
    plan
}

/// A window that no screen shows is not captured, however it is drawn: one on
/// a workspace that is not shown is parked a screen away.
pub proof fn a_hidden_window_is_not_captured(candidate: Candidate, screens: Seq<Rect>)
    requires
        candidate.slot is None || !on_some_screen(candidate.slot->0, screens),
    ensures
        capturing(candidate, screens) == Capturing::Release(candidate.pane),
{
}

/// What masking a client comes to.
#[derive(Clone, Copy, Debug, PartialEq, Eq, Structural)]
pub enum Masking {
    /// Its style asks for nothing that can be run. Says which effect that cannot
    /// be to complain of, if any.
    Nothing { complain: Option<Effect> },
    /// Its style asks for this.
    Run(Effect),
}

/// What masking a client comes to, out of the effects its style declares. An
/// effect that cannot be run is complained of once, and only where there is
/// none to run in its place.
pub fn client_pass<P>(effects: &[Effect], programs: &mut Programs<P>) -> (r: Masking)
    ensures
        match r {
            Masking::Run(effect) => {
                &&& exists|i: int|
                    {
                        &&& 0 <= i < effects.len()
                        &&& #[trigger] effects@[i] == effect
                        &&& wants_pass(effect)
                        &&& forall|k: int| 0 <= k < i ==> !wants_pass(#[trigger] effects@[k])
                    }
                &&& *final(programs) == *old(programs)
            },
            Masking::Nothing { complain } => {
                &&& forall|k: int|
                    0 <= k < effects.len() ==> !wants_pass(#[trigger] effects@[k])
                &&& ({
                    let bad = exists|k: int|
                        0 <= k < effects.len() && is_refused(#[trigger] effects@[k]);
                    &&& complain is Some == (bad && !old(programs).refused)
                    &&& complain matches Some(effect) ==> exists|i: int|
                        {
                            &&& 0 <= i < effects.len()
                            &&& #[trigger] effects@[i] == effect
                            &&& is_refused(effect)
                            &&& forall|k: int| 0 <= k < i ==> !is_refused(#[trigger] effects@[k])
                        }
                    &&& *final(programs) == if bad {
                        Programs { refused: true, ..*old(programs) }
                    } else {
                        *old(programs)
                    }
                })
            },
        },
{
    match needs_pass(effects) {
        Some(effect) => Masking::Run(effect),
        None => match refused(effects) {
            Some(effect) => if programs.refuse(effect) {
                Masking::Nothing { complain: Some(effect) }
            } else {
                Masking::Nothing { complain: None }
            },
            None => Masking::Nothing { complain: None },
        },
    }
}

/// One picture to draw: which part of the desktop, at what scale, as the bits
/// of a double, and with the pointer or without.
#[derive(Clone, Copy, Debug, PartialEq, Eq, Structural)]
pub struct Picture {
    pub screen: Rect,
    pub scale: u64,
    pub cursor: bool,
}

impl Picture {
    /// What a monitor gets: its whole area, its own scale, and the pointer.
    pub fn screen(screen: Rect, scale: u64) -> (picture: Self)
        ensures
            picture == (Picture { screen, scale, cursor: true }),
    {
        Picture { screen, scale, cursor: true }
    }
}

/// Where what a script asked to be drawn goes among the rest.
#[derive(Clone, Copy, Debug, PartialEq, Eq, Structural)]
pub enum Layer {
    /// Under everything.
    Background,
    /// Under the windows.
    Bottom,
    /// Over the windows, under what clients anchor over them: a bar that was
    /// installed covers one that a script draws.
    Top,
    /// Over that too, and under what the pointer drags.
    Overlay,
}

/// One thing to draw.
#[derive(Clone, Copy, Debug, PartialEq, Eq, Structural)]
pub enum Step {
    /// The pointer.
    Cursor,
    /// The surface of whatever locked the session.
    LockSurface,
    /// The backdrop of a session that is locked.
    Blank,
    /// What is dragged with the pointer.
    DragIcon,
    /// What scripts put at a layer.
    Scripted(Layer),
    /// What clients anchor over the windows.
    AnchoredAbove,
    /// What clients anchor under them.
    AnchoredBelow,
    /// The scene of the compositor's own that a pane has.
    Scene(PaneId),
    /// The layers of a pane's style at a depth.
    Chrome(PaneId, Depth),
    /// A pane that is bent, from its texture.
    Warped(PaneId),
    /// The popups of a pane's window.
    Popups(PaneId),
    /// A pane's client from its texture, through its mask.
    Masked(PaneId),
    /// A pane's client from its surfaces.
    Surfaces(PaneId),
}

/// What there is to know of a pane to draw it on one screen.
#[derive(Clone, Copy, Debug, PartialEq, Eq, Structural)]
pub struct Node {
    pub pane: PaneId,
    /// The window it shows.
    pub window: Option<Window>,
    /// The slot of the pane, its frame with it.
    pub slot: Rect,
    /// Whether the client has painted and is to be seen.
    pub ready: bool,
    /// Whether the pane has a scene of the compositor's own.
    pub scene: bool,
    /// Whether it is drawn as a rectangle and nothing else.
    pub flat: bool,
    /// Whether any of it, with what its style draws around it, is drawn on the
    /// screen.
    pub reaches: bool,
    /// Whether the window has a place.
    pub mapped: bool,
    /// Whether it is bent and there is a texture and a mesh to bend.
    pub warped: bool,
    /// Whether its window can have popups.
    pub toplevel: bool,
    /// Whether its client was captured for a mask.
    pub masked: bool,
}

/// Whether what is drawn of a pane is the compositor's own and not a client's.
pub open spec fn is_ours(node: Node) -> bool {
    !(node.window is Some && node.ready)
}

/// Whether anything of a pane is drawn on a screen: it has something to draw,
/// it lives on that screen, and it was not moved off it.
pub open spec fn is_drawn(node: Node, screen: Rect) -> bool {
    &&& !(is_ours(node) && !node.scene)
    &&& node.slot.meets(screen)
    &&& !(node.flat && !node.reaches)
}

/// What is drawn of a pane on a screen it is drawn on, topmost first.
pub open spec fn pane_steps(node: Node, decorated: bool) -> Seq<Step> {
    let pane = node.pane;
    if is_ours(node) {
        if decorated {
            seq![
                Step::Chrome(pane, Depth::Above),
                Step::Chrome(pane, Depth::Frame),
                Step::Scene(pane),
                Step::Chrome(pane, Depth::Behind),
            ]
        } else {
            seq![Step::Scene(pane)]
        }
    } else {
        let scene = if node.scene {
            seq![Step::Scene(pane)]
        } else {
            Seq::empty()
        };
        if !node.mapped {
            scene
        } else if node.warped {
            scene.push(Step::Warped(pane))
        } else {
            let popups = if node.toplevel {
                scene.push(Step::Popups(pane))
            } else {
                scene
            };
            popups + seq![
                Step::Chrome(pane, Depth::Above),
                Step::Chrome(pane, Depth::Frame),
                if node.masked {
                    Step::Masked(pane)
                } else {
                    Step::Surfaces(pane)
                },
                Step::Chrome(pane, Depth::Behind),
            ]
        }
    }
}

/// What is drawn of some panes on a screen, in their order.
pub open spec fn panes_steps(nodes: Seq<Node>, screen: Rect, decorated: bool) -> Seq<Step>
    decreases nodes.len(),
{
    if nodes.len() == 0 {
        Seq::empty()
    } else {
        let before = panes_steps(nodes.drop_last(), screen, decorated);
        if is_drawn(nodes.last(), screen) {
            before + pane_steps(nodes.last(), decorated)
        } else {
            before
        }
    }
}

/// The state of the session that a frame is drawn in.
#[derive(Clone, Copy, Debug, PartialEq, Eq, Structural)]
pub struct Session {
    /// Whether it is locked, and if it is, whether whatever locked it has a
    /// surface on this screen.
    pub lock: Option<bool>,
    /// Whether the screen is a monitor that clients anchor things to.
    pub output: bool,
    /// Whether a pane that is waiting for its application has its frame drawn.
    pub decorated: bool,
}

/// Nothing, or one step.
pub open spec fn maybe(there: bool, step: Step) -> Seq<Step> {
    if there {
        seq![step]
    } else {
        Seq::empty()
    }
}

/// What is drawn in a frame, topmost first.
///
/// A session that is locked is the pointer, the surface of what locked it and
/// the backdrop under it, and nothing else.
pub open spec fn frame_steps(picture: Picture, session: Session, nodes: Seq<Node>) -> Seq<Step> {
    match session.lock {
        Some(surface) => maybe(picture.cursor, Step::Cursor) + maybe(surface, Step::LockSurface)
            + seq![Step::Blank],
        None => maybe(picture.cursor, Step::Cursor) + maybe(picture.cursor, Step::DragIcon) + seq![
            Step::Scripted(Layer::Overlay),
        ] + maybe(session.output, Step::AnchoredAbove) + seq![Step::Scripted(Layer::Top)]
            + panes_steps(nodes, picture.screen, session.decorated) + seq![
            Step::Scripted(Layer::Bottom),
        ] + maybe(session.output, Step::AnchoredBelow) + seq![Step::Scripted(Layer::Background)],
    }
}

fn add_pane(steps: &mut Vec<Step>, node: &Node, screen: Rect, decorated: bool)
    ensures
        final(steps)@ == if is_drawn(*node, screen) {
            old(steps)@ + pane_steps(*node, decorated)
        } else {
            old(steps)@
        },
{
    let pane = node.pane;
    let ours = !(node.window.is_some() && node.ready);
    if ours && !node.scene {
        return ;
    }
    if !node.slot.overlaps(screen) {
        return ;
    }
    if node.flat && !node.reaches {
        return ;
    }
    let ghost before = steps@;
    if ours {
        if decorated {
            steps.push(Step::Chrome(pane, Depth::Above));
            steps.push(Step::Chrome(pane, Depth::Frame));
        }
        steps.push(Step::Scene(pane));
        if decorated {
            steps.push(Step::Chrome(pane, Depth::Behind));
        }
        assert(steps@ =~= before + pane_steps(*node, decorated));
        return ;
    }
    if node.scene {
        steps.push(Step::Scene(pane));
    }
    if !node.mapped {
        assert(steps@ =~= before + pane_steps(*node, decorated));
        return ;
    }
    if node.warped {
        steps.push(Step::Warped(pane));
        assert(steps@ =~= before + pane_steps(*node, decorated));
        return ;
    }
    if node.toplevel {
        steps.push(Step::Popups(pane));
    }
    steps.push(Step::Chrome(pane, Depth::Above));
    steps.push(Step::Chrome(pane, Depth::Frame));
    if node.masked {
        steps.push(Step::Masked(pane));
    } else {
        steps.push(Step::Surfaces(pane));
    }
    steps.push(Step::Chrome(pane, Depth::Behind));
    assert(steps@ =~= before + pane_steps(*node, decorated));
}

/// Some nodes without their depths.
pub open spec fn without_depths(order: Seq<(Node, u32)>) -> Seq<Node> {
    Seq::new(order.len(), |i: int| order[i].0)
}

/// What is drawn in a frame, topmost first. `order` is the panes, topmost
/// first, each with its depth as the bits of a single: the depths say which is
/// drawn before which, and the stack does where they are equal.
pub fn elements(picture: Picture, session: Session, order: Vec<(Node, u32)>) -> (steps: Vec<Step>)
    ensures
        exists|ordered: Seq<(Node, u32)>|
            {
                &&& #[trigger] drawing_order(order@, ordered)
                &&& steps@ == frame_steps(picture, session, without_depths(ordered))
            },
        session.lock is None ==> forall|i: int|
            {
                let node = (#[trigger] order@[i]).0;
                &&& 0 <= i < order.len()
                &&& node.window is Some && node.ready && node.mapped
                &&& node.slot.meets(picture.screen)
                &&& !node.flat || node.reaches
            } ==> steps@.contains(
                if order@[i].0.warped {
                    Step::Warped(order@[i].0.pane)
                } else if order@[i].0.masked {
                    Step::Masked(order@[i].0.pane)
                } else {
                    Step::Surfaces(order@[i].0.pane)
                },
            ),
{
    let ghost given = order@;
    let mut order = order;
    by_depth(&mut order);
    let steps = stacked(picture, session, &order);
    proof {
        let nodes = without_depths(order@);
        every_node_is_drawn_once(given, order@);
        if session.lock is None {
            assert forall|i: int|
                {
                    let node = (#[trigger] given[i]).0;
                    &&& 0 <= i < given.len()
                    &&& node.window is Some && node.ready && node.mapped
                    &&& node.slot.meets(picture.screen)
                    &&& !node.flat || node.reaches
                } implies steps@.contains(
                if given[i].0.warped {
                    Step::Warped(given[i].0.pane)
                } else if given[i].0.masked {
                    Step::Masked(given[i].0.pane)
                } else {
                    Step::Surfaces(given[i].0.pane)
                },
            ) by {
                assert(order@.contains(given[i]));
                let k = choose|k: int| 0 <= k < order@.len() && order@[k] == given[i];
                let node = nodes[k];
                assert(node == given[i].0);
                its_client_is_among_its_steps(node, session.decorated);
                among_the_steps_of_a_frame(
                    picture,
                    session,
                    nodes,
                    k,
                    if node.warped {
                        Step::Warped(node.pane)
                    } else if node.masked {
                        Step::Masked(node.pane)
                    } else {
                        Step::Surfaces(node.pane)
                    },
                );
            }
        }
    }
    steps
}

/// What is drawn in a frame of panes that are in the order they are drawn in.
fn stacked(picture: Picture, session: Session, order: &Vec<(Node, u32)>) -> (steps: Vec<Step>)
    ensures
        steps@ == frame_steps(picture, session, without_depths(order@)),
{
    let ghost nodes = without_depths(order@);
    let mut steps: Vec<Step> = Vec::new();
    if picture.cursor {
        steps.push(Step::Cursor);
    }
    if let Some(surface) = session.lock {
        if surface {
            steps.push(Step::LockSurface);
        }
        steps.push(Step::Blank);
        assert(steps@ =~= frame_steps(picture, session, nodes));
        return steps;
    }
    if picture.cursor {
        steps.push(Step::DragIcon);
    }
    steps.push(Step::Scripted(Layer::Overlay));
    if session.output {
        steps.push(Step::AnchoredAbove);
    }
    steps.push(Step::Scripted(Layer::Top));
    let ghost over = steps@;
    let mut i: usize = 0;
    assert(nodes.take(0) =~= Seq::<Node>::empty());
    while i < order.len()
        invariant
            i <= order.len(),
            nodes == without_depths(order@),
            steps@ == over + panes_steps(nodes.take(i as int), picture.screen, session.decorated),
        decreases order.len() - i,
    {
        let ghost upto = nodes.take(i + 1);
        assert(upto.drop_last() =~= nodes.take(i as int));
        assert(upto.last() == nodes[i as int]);
        add_pane(&mut steps, &order[i].0, picture.screen, session.decorated);
        assert(steps@ =~= over + panes_steps(upto, picture.screen, session.decorated));
        i = i + 1;
    }
    assert(nodes.take(nodes.len() as int) =~= nodes);
    steps.push(Step::Scripted(Layer::Bottom));
    if session.output {
        steps.push(Step::AnchoredBelow);
    }
    steps.push(Step::Scripted(Layer::Background));
    assert(steps@ =~= frame_steps(picture, session, nodes));
    steps
}

/// Whether a step draws anything that belongs to the session: a window, what
/// clients anchor or drag, what scripts draw.
pub open spec fn of_the_session(step: Step) -> bool {
    !(step is Cursor || step is LockSurface || step is Blank)
}

/// A session that is locked is not seen: nothing in the frame belongs to it,
/// not even what is being dragged, and the backdrop is under the rest.
pub proof fn a_locked_session_is_not_seen(picture: Picture, session: Session, nodes: Seq<Node>)
    requires
        session.lock is Some,
    ensures
        frame_steps(picture, session, nodes).last() == Step::Blank,
        forall|i: int|
            0 <= i < frame_steps(picture, session, nodes).len() ==> !of_the_session(
                #[trigger] frame_steps(picture, session, nodes)[i],
            ),
{
}

/// The pointer is over everything, where it is drawn at all.
pub proof fn the_pointer_is_on_top(picture: Picture, session: Session, nodes: Seq<Node>)
    requires
        picture.cursor,
    ensures
        frame_steps(picture, session, nodes).first() == Step::Cursor,
{
}

proof fn panes_draw_panes(nodes: Seq<Node>, screen: Rect, decorated: bool, i: int)
    requires
        0 <= i < panes_steps(nodes, screen, decorated).len(),
    ensures
        ({
            let step = panes_steps(nodes, screen, decorated)[i];
            &&& of_the_session(step)
            &&& step !is DragIcon
            &&& step !is Scripted
            &&& step !is AnchoredAbove
            &&& step !is AnchoredBelow
        }),
    decreases nodes.len(),
{
    if nodes.len() > 0 {
        let before = panes_steps(nodes.drop_last(), screen, decorated);
        if i < before.len() {
            panes_draw_panes(nodes.drop_last(), screen, decorated, i);
        }
    }
}

/// What is dragged is under the pointer that carries it and over everything
/// that belongs to the session, and what scripts put in the background is under
/// all of it.
pub proof fn the_session_is_between_the_drag_and_the_background(
    picture: Picture,
    session: Session,
    nodes: Seq<Node>,
)
    requires
        session.lock is None,
    ensures
        picture.cursor ==> frame_steps(picture, session, nodes)[1] == Step::DragIcon,
        frame_steps(picture, session, nodes).last() == Step::Scripted(Layer::Background),
{
}

/// What clients anchor over the windows covers what scripts put at the top, and
/// what scripts lay over everything covers both.
pub proof fn a_bar_covers_a_scripted_one(picture: Picture, session: Session, nodes: Seq<Node>)
    requires
        session.lock is None,
        session.output,
    ensures
        ({
            let steps = frame_steps(picture, session, nodes);
            let at: int = if picture.cursor {
                2
            } else {
                0
            };
            &&& steps[at] == Step::Scripted(Layer::Overlay)
            &&& steps[at + 1] == Step::AnchoredAbove
            &&& steps[at + 2] == Step::Scripted(Layer::Top)
        }),
{
}

/// A picture without the pointer has neither the pointer in it nor what it
/// drags.
pub proof fn no_pointer_no_drag(picture: Picture, session: Session, nodes: Seq<Node>, i: int)
    requires
        !picture.cursor,
        0 <= i < frame_steps(picture, session, nodes).len(),
    ensures
        frame_steps(picture, session, nodes)[i] !is Cursor,
        frame_steps(picture, session, nodes)[i] !is DragIcon,
{
    let steps = frame_steps(picture, session, nodes);
    if session.lock is None {
        let over = maybe(picture.cursor, Step::Cursor) + maybe(picture.cursor, Step::DragIcon)
            + seq![Step::Scripted(Layer::Overlay)] + maybe(session.output, Step::AnchoredAbove)
            + seq![Step::Scripted(Layer::Top)];
        let panes = panes_steps(nodes, picture.screen, session.decorated);
        if over.len() <= i < over.len() + panes.len() {
            panes_draw_panes(nodes, picture.screen, session.decorated, i - over.len());
            assert(steps[i] == panes[i - over.len()]);
        }
    }
}

/// A window is drawn only on the screens it lives on: one whose slot is not on
/// a screen adds nothing to its frame, however far it is drawn from its slot.
pub proof fn a_window_elsewhere_adds_nothing(
    picture: Picture,
    session: Session,
    nodes: Seq<Node>,
    node: Node,
)
    requires
        !node.slot.meets(picture.screen),
    ensures
        frame_steps(picture, session, nodes.push(node)) == frame_steps(picture, session, nodes),
{
    assert(nodes.push(node).drop_last() =~= nodes);
}

/// What draws one piece of a pane.
pub open spec fn step_of(node: Node, piece: Piece) -> Step {
    match piece {
        Piece::Layers(depth) => Step::Chrome(node.pane, depth),
        Piece::Client => if is_ours(node) {
            Step::Scene(node.pane)
        } else if node.masked {
            Step::Masked(node.pane)
        } else {
            Step::Surfaces(node.pane)
        },
    }
}

/// Whatever a pane shows, and wherever, its pieces are drawn in one order: the
/// scene that stands in for an application has the place among the layers that
/// the application's client has.
pub proof fn every_pane_is_drawn_in_one_order(node: Node, decorated: bool, i: int)
    requires
        if is_ours(node) {
            decorated
        } else {
            node.mapped && !node.warped
        },
        0 <= i < 4,
    ensures
        ({
            let steps = pane_steps(node, decorated);
            steps.len() >= 4 && steps[steps.len() - 4 + i] == step_of(node, pane_order()[i])
        }),
{
    the_client_is_between_the_layers();
}

/// A window's popups are over all its layers, and its client is between them.
pub proof fn a_menu_is_over_its_window(node: Node, decorated: bool)
    requires
        !is_ours(node),
        node.mapped,
        !node.warped,
        node.toplevel,
    ensures
        ({
            let steps = pane_steps(node, decorated);
            let at = steps.len() - 5;
            &&& 0 <= at <= 1
            &&& steps[at] == Step::Popups(node.pane)
            &&& steps[at + 1] == Step::Chrome(node.pane, Depth::Above)
            &&& steps[at + 2] == Step::Chrome(node.pane, Depth::Frame)
            &&& steps[at + 3] == if node.masked {
                Step::Masked(node.pane)
            } else {
                Step::Surfaces(node.pane)
            }
            &&& steps[at + 4] == Step::Chrome(node.pane, Depth::Behind)
        }),
{
}

/// Something a script asked to be drawn.
#[derive(Clone, Copy, Debug, PartialEq, Eq, Structural)]
pub struct Surface {
    pub id: u64,
    pub layer: Layer,
    /// Where it is drawn, for a screen it belongs on: where it was declared to
    /// be, moved with whatever it belongs to.
    pub area: Option<Rect>,
}

/// A rectangle as a screen at `origin` sees it.
pub open spec fn seen_from(rect: Rect, origin: Point) -> Rect {
    Rect {
        loc: Point {
            x: nearest_coordinate(rect.loc.x - origin.x) as i32,
            y: nearest_coordinate(rect.loc.y - origin.y) as i32,
        },
        size: rect.size,
    }
}

/// Whether something is drawn at a layer of a screen: it is of that layer, it
/// belongs there, and where it is drawn is on the screen.
pub open spec fn is_wanted(surface: Surface, layer: Layer, screen: Rect) -> bool {
    surface.layer == layer && surface.area is Some && surface.area->0.meets(screen)
}

/// What scripts draw at a layer of a screen, and where on it, in the order it
/// was asked for.
pub open spec fn scripted_at(surfaces: Seq<Surface>, layer: Layer, screen: Rect) -> Seq<(u64, Rect)>
    decreases surfaces.len(),
{
    if surfaces.len() == 0 {
        Seq::empty()
    } else {
        let before = scripted_at(surfaces.drop_last(), layer, screen);
        let last = surfaces.last();
        if is_wanted(last, layer, screen) {
            before.push((last.id, seen_from(last.area->0, screen.loc)))
        } else {
            before
        }
    }
}

/// What scripts draw at a layer of a screen, and where on it.
pub fn scripted(surfaces: &[Surface], layer: Layer, screen: Rect) -> (drawn: Vec<(u64, Rect)>)
    ensures
        drawn@ == scripted_at(surfaces@, layer, screen),
{
    let mut drawn: Vec<(u64, Rect)> = Vec::new();
    let mut i: usize = 0;
    assert(surfaces@.take(0) =~= Seq::<Surface>::empty());
    while i < surfaces.len()
        invariant
            i <= surfaces.len(),
            drawn@ == scripted_at(surfaces@.take(i as int), layer, screen),
        decreases surfaces.len() - i,
    {
        assert(surfaces@.take(i + 1).drop_last() =~= surfaces@.take(i as int));
        assert(surfaces@.take(i + 1).last() == surfaces@[i as int]);
        let surface = surfaces[i];
        if surface.layer == layer {
            if let Some(area) = surface.area {
                if area.overlaps(screen) {
                    drawn.push(
                        (
                            surface.id,
                            Rect { loc: area.loc.from_origin(screen.loc), size: area.size },
                        ),
                    );
                }
            }
        }
        i = i + 1;
    }
    assert(surfaces@.take(surfaces.len() as int) =~= surfaces@);
    drawn
}

/// Whether another frame is asked for: any of what was drawn is still moving.
pub fn redraws(moving: &[bool]) -> (r: bool)
    ensures
        r == exists|i: int| 0 <= i < moving.len() && #[trigger] moving@[i],
{
    let mut r = false;
    let mut i: usize = 0;
    while i < moving.len()
        invariant
            i <= moving.len(),
            r == exists|k: int| 0 <= k < i && #[trigger] moving@[k],
        decreases moving.len() - i,
    {
        if moving[i] {
            assert(moving@[i as int]);
            r = true;
        }
        i = i + 1;
    }
    r
}

/// Where a picture carried by the pointer has its top-left corner: the hotspot,
/// a point in the picture, lands on the pointer.
pub fn origin_at(pointer: Point, hotspot: Point) -> (origin: Point)
    ensures
        origin.x == nearest_coordinate(pointer.x - hotspot.x),
        origin.y == nearest_coordinate(pointer.y - hotspot.y),
{
    pointer.from_origin(hotspot)
}

/// The hotspot lands on the pointer, wherever the pointer and the hotspot are
/// such that the corner is a place at all.
pub proof fn the_hotspot_lands_on_the_pointer(pointer: Point, hotspot: Point, origin: Point)
    requires
        i32::MIN <= pointer.x - hotspot.x <= i32::MAX,
        i32::MIN <= pointer.y - hotspot.y <= i32::MAX,
        origin.x == nearest_coordinate(pointer.x - hotspot.x),
        origin.y == nearest_coordinate(pointer.y - hotspot.y),
    ensures
        origin.x + hotspot.x == pointer.x,
        origin.y + hotspot.y == pointer.y,
{
}

/// What the pointer is set to.
#[derive(Clone, Copy, Debug, PartialEq, Eq, Structural)]
pub enum Pointer {
    /// A client hid it.
    Hidden,
    /// A client gave it a surface, with its hotspot.
    Surface(Point),
    /// It has the shape of a name.
    Named,
}

/// What is drawn for the pointer.
#[derive(Clone, Copy, Debug, PartialEq, Eq, Structural)]
pub enum Carried {
    Nothing,
    /// A client's surface, with its corner here.
    Surface(Point),
    /// The compositor's own.
    Own,
}

/// What is drawn for the pointer, if there is one, and where. `at` is where it
/// is on the screen, to the nearest pixel.
pub fn cursor(at: Option<Point>, pointer: Pointer) -> (r: Carried)
    ensures
        r == match (at, pointer) {
            (None, _) => Carried::Nothing,
            (_, Pointer::Hidden) => Carried::Nothing,
            (Some(at), Pointer::Surface(hotspot)) => Carried::Surface(
                seen_from(Rect { loc: at, size: Size { w: 0, h: 0 } }, hotspot).loc,
            ),
            (Some(_), Pointer::Named) => Carried::Own,
        },
{
    match at {
        None => Carried::Nothing,
        Some(at) => match pointer {
            Pointer::Hidden => Carried::Nothing,
            Pointer::Surface(hotspot) => Carried::Surface(origin_at(at, hotspot)),
            Pointer::Named => Carried::Own,
        },
    }
}

/// What is drawn of a drag: its icon, by its hotspot, where there is one and a
/// pointer to carry it.
pub fn drag_icon(at: Option<Point>, hotspot: Option<Point>) -> (r: Carried)
    ensures
        r == match (at, hotspot) {
            (Some(at), Some(hotspot)) => Carried::Surface(
                seen_from(Rect { loc: at, size: Size { w: 0, h: 0 } }, hotspot).loc,
            ),
            _ => Carried::Nothing,
        },
{
    match (at, hotspot) {
        (Some(at), Some(hotspot)) => Carried::Surface(origin_at(at, hotspot)),
        _ => Carried::Nothing,
    }
}

/// The room a frame takes on each side of a client.
#[derive(Clone, Copy, Debug, PartialEq, Eq, Structural)]
pub struct Insets {
    pub top: i32,
    pub right: i32,
    pub bottom: i32,
    pub left: i32,
}

/// The size a window that is bent is captured at, and where its client sits in
/// it.
#[derive(Clone, Copy, Debug, PartialEq, Eq, Structural)]
pub struct Flat {
    pub outer: Size,
    pub insets: Insets,
}

/// What a window is captured at: its pane's own size, which is the one it is
/// drawn over, or that of the window where it has no pane.
pub fn flat(pane: Option<Flat>, window: Option<Flat>) -> (r: Option<Flat>)
    ensures
        r == if pane is Some {
            pane
        } else {
            window
        },
{
    match pane {
        Some(flat) => Some(flat),
        None => window,
    }
}

/// What one window is made of, flat, topmost first: its layers around it, if it
/// has a pane, and its popups with its client.
pub open spec fn window_steps(pane: Option<PaneId>, toplevel: bool) -> Seq<Part> {
    let client = if toplevel {
        seq![Part::Popups, Part::Surfaces]
    } else {
        seq![Part::Surfaces]
    };
    match pane {
        Some(pane) => seq![
            Part::Chrome(pane, Depth::Above),
            Part::Chrome(pane, Depth::Frame),
        ] + client + seq![Part::Chrome(pane, Depth::Behind)],
        None => client,
    }
}

/// One thing a window is made of.
#[derive(Clone, Copy, Debug, PartialEq, Eq, Structural)]
pub enum Part {
    Chrome(PaneId, Depth),
    Popups,
    Surfaces,
}

/// What one window is made of, flat, topmost first. A window that is nowhere is
/// made of nothing.
pub fn flat_window_elements(flat: Option<Flat>, pane: Option<PaneId>, toplevel: bool) -> (parts: Vec<
    Part,
>)
    ensures
        parts@ == if flat is Some {
            window_steps(pane, toplevel)
        } else {
            Seq::empty()
        },
{
    let mut parts: Vec<Part> = Vec::new();
    if flat.is_none() {
        return parts;
    }
    if let Some(pane) = pane {
        parts.push(Part::Chrome(pane, Depth::Above));
        parts.push(Part::Chrome(pane, Depth::Frame));
    }
    if toplevel {
        parts.push(Part::Popups);
    }
    parts.push(Part::Surfaces);
    if let Some(pane) = pane {
        parts.push(Part::Chrome(pane, Depth::Behind));
    }
    assert(parts@ =~= window_steps(pane, toplevel));
    parts
}

/// What is pictured of a client along one axis.
#[derive(Clone, Copy, Debug, PartialEq, Eq, Structural)]
pub struct Pictured {
    /// Whether it is short of what the client committed, by more than rounding.
    pub short: bool,
    /// How long it is, to the nearest pixel.
    pub nearest: i32,
}

/// How a client's buffer is scaled along one axis, before the whole window is.
#[derive(Clone, Copy, Debug, PartialEq, Eq, Structural)]
pub enum Scaled {
    /// Not at all.
    Own,
    /// To fill what is pictured.
    Filling,
    /// To fill what is pictured where that makes it smaller, and else not.
    Shrinking,
}

/// How a client's surfaces go into the rectangle they are drawn in.
#[derive(Clone, Copy, Debug, PartialEq, Eq, Structural)]
pub struct Fit {
    pub across: Scaled,
    pub down: Scaled,
    /// Whether they are cut to that rectangle.
    pub cut: bool,
    /// How much of the committed buffer is in the picture, from its top-left
    /// corner.
    pub shown: Size,
}

/// How a buffer is scaled along one axis.
pub open spec fn scaled_along(cut: bool, fill: Option<Fill>) -> Scaled {
    if cut {
        Scaled::Own
    } else if Fill::keeps_size(fill) {
        Scaled::Shrinking
    } else {
        Scaled::Filling
    }
}

/// How much of a buffer is shown along one axis.
pub open spec fn shown_along(cut: bool, pictured: Pictured, committed: i32) -> int {
    let most = larger(committed as int, 1);
    if !cut {
        committed as int
    } else if pictured.nearest < 1 {
        1
    } else if pictured.nearest > most {
        most
    } else {
        pictured.nearest as int
    }
}

fn shown(cut: bool, pictured: Pictured, committed: i32) -> (r: i32)
    ensures
        r == shown_along(cut, pictured, committed),
{
    if !cut {
        return committed;
    }
    let most: i32 = crate::geometry::max(committed, 1);
    if pictured.nearest < 1 {
        1
    } else if pictured.nearest > most {
        most
    } else {
        pictured.nearest
    }
}

fn scaled(cut: bool, fill: Option<Fill>) -> (r: Scaled)
    ensures
        r == scaled_along(cut, fill),
{
    if cut {
        Scaled::Own
    } else if crate::resizing::capped(fill) {
        Scaled::Shrinking
    } else {
        Scaled::Filling
    }
}

/// A client's fit, from what is pictured of it along each axis and what it
/// committed.
///
/// Along each axis by itself, the buffer of a client that a layout holds in a
/// tile is drawn at its own size where the tile is short of it, and the tile
/// cuts it; everywhere else it is scaled to fill what is pictured.
pub fn fit(across: Pictured, down: Pictured, committed: Size, tiled: bool, fill: Option<Fill>) -> (fit:
    Fit)
    ensures
        ({
            let cut_x = tiled && across.short;
            let cut_y = tiled && down.short;
            &&& fit.across == scaled_along(cut_x, fill)
            &&& fit.down == scaled_along(cut_y, fill)
            &&& fit.cut == (cut_x || cut_y)
            &&& fit.shown.w == shown_along(cut_x, across, committed.w)
            &&& fit.shown.h == shown_along(cut_y, down, committed.h)
        }),
{
    let cut_x = tiled && across.short;
    let cut_y = tiled && down.short;
    Fit {
        across: scaled(cut_x, fill),
        down: scaled(cut_y, fill),
        cut: cut_x || cut_y,
        shown: Size {
            w: shown(cut_x, across, committed.w),
            h: shown(cut_y, down, committed.h),
        },
    }
}

/// What of a client is drawn through its fit.
#[derive(Clone, Copy, Debug, PartialEq, Eq, Structural)]
pub enum Tree {
    /// Its own surfaces.
    Surfaces,
    /// Its popups, each a window of its own.
    Popups,
}

impl Fit {
    /// The fit that something of a client is drawn through: its surfaces through
    /// the client's own, and its popups through that with nothing cut, since a
    /// menu scales with its window and reaches past its tile.
    pub open spec fn through(self, tree: Tree) -> Fit {
        match tree {
            Tree::Surfaces => self,
            Tree::Popups => Fit { cut: false, ..self },
        }
    }

    /// The fit that something of a client is drawn through.
    pub fn of(self, tree: Tree) -> (fit: Self)
        ensures
            fit == self.through(tree),
    {
        match tree {
            Tree::Surfaces => self,
            Tree::Popups => self.uncut(),
        }
    }

    /// The same fit with nothing cut, which is what a popup is drawn through.
    pub fn uncut(self) -> (fit: Self)
        ensures
            fit == (Fit { cut: false, ..self }),
    {
        Fit { cut: false, ..self }
    }
}

/// How one surface is drawn through a fit.
#[derive(Clone, Copy, Debug, PartialEq, Eq, Structural)]
pub enum Fitted {
    /// All of it.
    Whole,
    /// What of it is inside the cut.
    Cut,
    /// Not at all: there is nothing of it inside the cut.
    Dropped,
}

/// What becomes of a surface drawn through a fit, by whether any of it is
/// inside the rectangle that the fit cuts to.
pub open spec fn fitted_as(fit: Fit, inside: bool) -> Fitted {
    if !fit.cut {
        Fitted::Whole
    } else if inside {
        Fitted::Cut
    } else {
        Fitted::Dropped
    }
}

/// How one surface is drawn through a fit. `inside` says whether anything of it
/// is inside the cut.
pub fn fitted(fit: Fit, inside: bool) -> (r: Fitted)
    ensures
        r == fitted_as(fit, inside),
{
    if !fit.cut {
        Fitted::Whole
    } else if inside {
        Fitted::Cut
    } else {
        Fitted::Dropped
    }
}

/// A popup is drawn whole, wherever it is and whatever its client is cut to, and
/// scaled as its client is.
pub proof fn a_popup_reaches_past_its_tile(fit: Fit, inside: bool)
    ensures
        fitted_as(fit.through(Tree::Popups), inside) == Fitted::Whole,
        fit.through(Tree::Popups).across == fit.across,
        fit.through(Tree::Popups).down == fit.down,
        fit.through(Tree::Surfaces) == fit,
{
}

/// Against which edges a picture that does not fill its rectangle is put: the
/// ones a drag does not move, or the top and the left where there is no drag.
/// Says whether the spare room is on the left, and whether it is at the top.
pub fn spare(pins: Option<(bool, bool)>) -> (r: (bool, bool))
    ensures
        r == match pins {
            Some(pins) => pins,
            None => (false, false),
        },
{
    match pins {
        Some(pins) => pins,
        None => (false, false),
    }
}

/// Whether something drawn is scaled by how long it is drawn over how long it
/// is, which takes that there is something of both.
pub fn ratio(drawn_above_nothing: bool, real_length: i32) -> (r: bool)
    ensures
        r == (drawn_above_nothing && real_length > 0),
{
    drawn_above_nothing && real_length > 0
}

/// How long a pane has waited for its application, in whole milliseconds, as
/// its scene is told. A pane that is gone has not waited.
pub fn waited_millis(waited: Option<Nanos>) -> (millis: i32)
    ensures
        millis == match waited {
            None => 0,
            Some(waited) => if waited / 1_000_000 <= i32::MAX {
                (waited / 1_000_000) as int
            } else {
                i32::MAX as int
            },
        },
{
    match waited {
        None => 0,
        Some(waited) => {
            let millis: u128 = waited / 1_000_000;
            if millis <= i32::MAX as u128 {
                millis as i32
            } else {
                i32::MAX
            }
        },
    }
}

/// Whether a pane is the one with the focus: it shows the window that has it.
pub fn is_focused(pane: PaneId, focused: Option<PaneId>) -> (r: bool)
    ensures
        r == (focused == Some(pane)),
{
    match focused {
        Some(focused) => focused == pane,
        None => false,
    }
}

/// A client that is in no tile is never cut, nor is one whose tile is not short
/// of it along either axis, and all it committed is shown.
pub proof fn nothing_to_cut_is_not_cut(
    fit: Fit,
    across: Pictured,
    down: Pictured,
    committed: Size,
    tiled: bool,
)
    requires
        !tiled || (!across.short && !down.short),
        fit.cut == ((tiled && across.short) || (tiled && down.short)),
        fit.shown.w == shown_along(tiled && across.short, across, committed.w),
        fit.shown.h == shown_along(tiled && down.short, down, committed.h),
    ensures
        !fit.cut,
        fit.shown == committed,
{
}

/// What is shown of a client that committed anything is never nothing and never
/// more than it committed.
pub proof fn some_of_it_is_shown(cut: bool, pictured: Pictured, committed: i32)
    requires
        committed >= 1,
    ensures
        1 <= shown_along(cut, pictured, committed) <= committed,
{
}

/// What draws the client of a window that has a place: its texture, bent or
/// through its mask, or its surfaces.
proof fn its_client_is_among_its_steps(node: Node, decorated: bool)
    requires
        node.window is Some,
        node.ready,
        node.mapped,
    ensures
        pane_steps(node, decorated).contains(
            if node.warped {
                Step::Warped(node.pane)
            } else if node.masked {
                Step::Masked(node.pane)
            } else {
                Step::Surfaces(node.pane)
            },
        ),
{
    let steps = pane_steps(node, decorated);
    if node.warped {
        assert(steps[steps.len() - 1] == Step::Warped(node.pane));
    } else if node.masked {
        assert(steps[steps.len() - 2] == Step::Masked(node.pane));
    } else {
        assert(steps[steps.len() - 2] == Step::Surfaces(node.pane));
    }
}

/// The steps of one pane stand together, after those of the panes before it and
/// before those of the panes after it; a pane that is not drawn has none.
pub proof fn panes_are_drawn_one_after_another(
    nodes: Seq<Node>,
    screen: Rect,
    decorated: bool,
    i: int,
)
    requires
        0 <= i < nodes.len(),
    ensures
        panes_steps(nodes, screen, decorated) == panes_steps(nodes.take(i), screen, decorated) + (
        if is_drawn(nodes[i], screen) {
            pane_steps(nodes[i], decorated)
        } else {
            Seq::empty()
        }) + panes_steps(nodes.skip(i + 1), screen, decorated),
        panes_steps(Seq::empty(), screen, decorated).len() == 0,
    decreases nodes.len(),
{
    let short = nodes.drop_last();
    if i == nodes.len() - 1 {
        assert(nodes.take(i) =~= short);
        assert(nodes.skip(i + 1) =~= Seq::<Node>::empty());
    } else {
        panes_are_drawn_one_after_another(short, screen, decorated, i);
        assert(short.take(i) =~= nodes.take(i));
        assert(short.skip(i + 1) =~= nodes.skip(i + 1).drop_last());
        assert(nodes.skip(i + 1).last() == nodes.last());
        assert(short[i] == nodes[i]);
    }
    assert(panes_steps(nodes, screen, decorated) =~= panes_steps(nodes.take(i), screen, decorated)
        + (if is_drawn(nodes[i], screen) {
        pane_steps(nodes[i], decorated)
    } else {
        Seq::empty()
    }) + panes_steps(nodes.skip(i + 1), screen, decorated));
}

/// What is drawn around the panes, exactly, of a session that is not locked:
/// over them the pointer with what it drags, what scripts lay over everything,
/// what clients anchor over the windows and what scripts put at the top, and
/// under them what scripts put at the bottom, what clients anchor under the
/// windows and what scripts put in the background.
pub proof fn what_is_over_and_under_the_panes(
    picture: Picture,
    session: Session,
    nodes: Seq<Node>,
)
    requires
        session.lock is None,
    ensures
        ({
            let steps = frame_steps(picture, session, nodes);
            let panes = panes_steps(nodes, picture.screen, session.decorated);
            &&& picture.cursor && session.output ==> steps == seq![
                Step::Cursor,
                Step::DragIcon,
                Step::Scripted(Layer::Overlay),
                Step::AnchoredAbove,
                Step::Scripted(Layer::Top),
            ] + panes + seq![
                Step::Scripted(Layer::Bottom),
                Step::AnchoredBelow,
                Step::Scripted(Layer::Background),
            ]
            &&& picture.cursor && !session.output ==> steps == seq![
                Step::Cursor,
                Step::DragIcon,
                Step::Scripted(Layer::Overlay),
                Step::Scripted(Layer::Top),
            ] + panes + seq![Step::Scripted(Layer::Bottom), Step::Scripted(Layer::Background)]
            &&& !picture.cursor && session.output ==> steps == seq![
                Step::Scripted(Layer::Overlay),
                Step::AnchoredAbove,
                Step::Scripted(Layer::Top),
            ] + panes + seq![
                Step::Scripted(Layer::Bottom),
                Step::AnchoredBelow,
                Step::Scripted(Layer::Background),
            ]
            &&& !picture.cursor && !session.output ==> steps == seq![
                Step::Scripted(Layer::Overlay),
                Step::Scripted(Layer::Top),
            ] + panes + seq![Step::Scripted(Layer::Bottom), Step::Scripted(Layer::Background)]
        }),
{
}

/// What is drawn of a session that is locked, exactly.
pub proof fn what_a_lock_shows(picture: Picture, session: Session, nodes: Seq<Node>)
    ensures
        ({
            let steps = frame_steps(picture, session, nodes);
            &&& session.lock == Some(true) && picture.cursor ==> steps == seq![
                Step::Cursor,
                Step::LockSurface,
                Step::Blank,
            ]
            &&& session.lock == Some(true) && !picture.cursor ==> steps == seq![
                Step::LockSurface,
                Step::Blank,
            ]
            &&& session.lock == Some(false) && picture.cursor ==> steps == seq![
                Step::Cursor,
                Step::Blank,
            ]
            &&& session.lock == Some(false) && !picture.cursor ==> steps == seq![Step::Blank]
        }),
{
}

/// A pane is drawn on a screen exactly where it has something to draw, a client
/// that has painted or a scene of the compositor's own, where its slot and the
/// screen each begin before the other ends, and where, drawn as a rectangle, it
/// reaches the screen.
pub proof fn where_a_pane_is_drawn(node: Node, screen: Rect)
    ensures
        is_drawn(node, screen) <==> {
            &&& (node.window is Some && node.ready) || node.scene
            &&& node.slot.loc.x < nearest_coordinate(screen.loc.x + screen.size.w)
            &&& screen.loc.x < nearest_coordinate(node.slot.loc.x + node.slot.size.w)
            &&& node.slot.loc.y < nearest_coordinate(screen.loc.y + screen.size.h)
            &&& screen.loc.y < nearest_coordinate(node.slot.loc.y + node.slot.size.h)
            &&& !node.flat || node.reaches
        },
{
}

proof fn among_the_steps_of_a_frame(
    picture: Picture,
    session: Session,
    nodes: Seq<Node>,
    i: int,
    step: Step,
)
    requires
        session.lock is None,
        0 <= i < nodes.len(),
        is_drawn(nodes[i], picture.screen),
        pane_steps(nodes[i], session.decorated).contains(step),
    ensures
        frame_steps(picture, session, nodes).contains(step),
{
    let screen = picture.screen;
    let own = pane_steps(nodes[i], session.decorated);
    let before = panes_steps(nodes.take(i), screen, session.decorated);
    let panes = panes_steps(nodes, screen, session.decorated);
    panes_are_drawn_one_after_another(nodes, screen, session.decorated, i);
    let k = choose|k: int| 0 <= k < own.len() && own[k] == step;
    assert(panes[before.len() + k] == step);
    let over = maybe(picture.cursor, Step::Cursor) + maybe(picture.cursor, Step::DragIcon) + seq![
        Step::Scripted(Layer::Overlay),
    ] + maybe(session.output, Step::AnchoredAbove) + seq![Step::Scripted(Layer::Top)];
    let steps = frame_steps(picture, session, nodes);
    assert(steps[over.len() + before.len() + k] == step);
}

/// A window is seen: where the client has painted and has a place, a pixel of
/// its slot is on the screen, and it is bent or reaches the screen, the client is
/// in the frame, from its texture or from its surfaces, whatever else is drawn.
pub proof fn a_window_on_the_screen_is_seen(
    picture: Picture,
    session: Session,
    nodes: Seq<Node>,
    i: int,
    x: int,
    y: int,
)
    requires
        session.lock is None,
        0 <= i < nodes.len(),
        nodes[i].window is Some,
        nodes[i].ready,
        nodes[i].mapped,
        -0x8000_0000 <= x < 0x7fff_ffff,
        -0x8000_0000 <= y < 0x7fff_ffff,
        nodes[i].slot.loc.x <= x < nodes[i].slot.loc.x + nodes[i].slot.size.w,
        nodes[i].slot.loc.y <= y < nodes[i].slot.loc.y + nodes[i].slot.size.h,
        picture.screen.loc.x <= x < picture.screen.loc.x + picture.screen.size.w,
        picture.screen.loc.y <= y < picture.screen.loc.y + picture.screen.size.h,
        !nodes[i].flat || nodes[i].reaches,
    ensures
        frame_steps(picture, session, nodes).contains(
            if nodes[i].warped {
                Step::Warped(nodes[i].pane)
            } else if nodes[i].masked {
                Step::Masked(nodes[i].pane)
            } else {
                Step::Surfaces(nodes[i].pane)
            },
        ),
{
    let node = nodes[i];
    its_client_is_among_its_steps(node, session.decorated);
    among_the_steps_of_a_frame(
        picture,
        session,
        nodes,
        i,
        if node.warped {
            Step::Warped(node.pane)
        } else if node.masked {
            Step::Masked(node.pane)
        } else {
            Step::Surfaces(node.pane)
        },
    );
}

/// A scene of the compositor's own is seen too, whether it stands in for an
/// application or fades off it, wherever its pane is drawn.
pub proof fn a_scene_on_the_screen_is_seen(
    picture: Picture,
    session: Session,
    nodes: Seq<Node>,
    i: int,
    x: int,
    y: int,
)
    requires
        session.lock is None,
        0 <= i < nodes.len(),
        nodes[i].scene,
        -0x8000_0000 <= x < 0x7fff_ffff,
        -0x8000_0000 <= y < 0x7fff_ffff,
        nodes[i].slot.loc.x <= x < nodes[i].slot.loc.x + nodes[i].slot.size.w,
        nodes[i].slot.loc.y <= y < nodes[i].slot.loc.y + nodes[i].slot.size.h,
        picture.screen.loc.x <= x < picture.screen.loc.x + picture.screen.size.w,
        picture.screen.loc.y <= y < picture.screen.loc.y + picture.screen.size.h,
        !nodes[i].flat || nodes[i].reaches,
    ensures
        frame_steps(picture, session, nodes).contains(Step::Scene(nodes[i].pane)),
{
    let node = nodes[i];
    let own = pane_steps(node, session.decorated);
    if is_ours(node) && session.decorated {
        assert(own[2] == Step::Scene(node.pane));
    } else {
        assert(own[0] == Step::Scene(node.pane));
    }
    among_the_steps_of_a_frame(picture, session, nodes, i, Step::Scene(node.pane));
}

/// What is drawn of one pane, exactly. Where there is no client that has painted
/// it is the scene, with the frame round it where that is drawn. Otherwise the
/// scene, if there is one, is over everything else, and under it are the popups,
/// over the layers with the client between them; a window that is bent is its
/// texture alone, and one that has no place is nothing.
pub proof fn what_is_drawn_of_a_pane(node: Node, decorated: bool)
    ensures
        ({
            let steps = pane_steps(node, decorated);
            let pane = node.pane;
            let scene = if node.scene {
                seq![Step::Scene(pane)]
            } else {
                Seq::<Step>::empty()
            };
            let client = if node.masked {
                Step::Masked(pane)
            } else {
                Step::Surfaces(pane)
            };
            &&& node.window is None || !node.ready ==> steps == if decorated {
                seq![
                    Step::Chrome(pane, Depth::Above),
                    Step::Chrome(pane, Depth::Frame),
                    Step::Scene(pane),
                    Step::Chrome(pane, Depth::Behind),
                ]
            } else {
                seq![Step::Scene(pane)]
            }
            &&& node.window is Some && node.ready && !node.mapped ==> steps == scene
            &&& node.window is Some && node.ready && node.mapped && node.warped ==> steps == scene
                + seq![Step::Warped(pane)]
            &&& node.window is Some && node.ready && node.mapped && !node.warped && node.toplevel
                ==> steps == scene + seq![
                Step::Popups(pane),
                Step::Chrome(pane, Depth::Above),
                Step::Chrome(pane, Depth::Frame),
                client,
                Step::Chrome(pane, Depth::Behind),
            ]
            &&& node.window is Some && node.ready && node.mapped && !node.warped && !node.toplevel
                ==> steps == scene + seq![
                Step::Chrome(pane, Depth::Above),
                Step::Chrome(pane, Depth::Frame),
                client,
                Step::Chrome(pane, Depth::Behind),
            ]
        }),
{
}

/// The pane a step draws something of.
pub open spec fn pane_of(step: Step) -> Option<PaneId> {
    match step {
        Step::Scene(pane) => Some(pane),
        Step::Chrome(pane, _) => Some(pane),
        Step::Warped(pane) => Some(pane),
        Step::Popups(pane) => Some(pane),
        Step::Masked(pane) => Some(pane),
        Step::Surfaces(pane) => Some(pane),
        _ => None,
    }
}

/// Nothing is drawn of a pane that is not there: every step among those of the
/// panes draws something of one that is drawn on the screen.
pub proof fn only_what_is_there_is_drawn(
    nodes: Seq<Node>,
    screen: Rect,
    decorated: bool,
    k: int,
)
    requires
        0 <= k < panes_steps(nodes, screen, decorated).len(),
    ensures
        exists|i: int|
            {
                &&& 0 <= i < nodes.len()
                &&& is_drawn(#[trigger] nodes[i], screen)
                &&& pane_of(panes_steps(nodes, screen, decorated)[k]) == Some(nodes[i].pane)
            },
    decreases nodes.len(),
{
    if nodes.len() > 0 {
        let short = nodes.drop_last();
        let before = panes_steps(short, screen, decorated);
        if k < before.len() {
            only_what_is_there_is_drawn(short, screen, decorated, k);
            let i = choose|i: int|
                {
                    &&& 0 <= i < short.len()
                    &&& is_drawn(#[trigger] short[i], screen)
                    &&& pane_of(before[k]) == Some(short[i].pane)
                };
            assert(nodes[i] == short[i]);
        } else {
            let last = nodes.len() - 1;
            assert(is_drawn(nodes[last], screen));
        }
    }
}

/// What is captured of a pane, by what is known of it: the whole window where it
/// is bent, the client where it is not, and nothing where there is no window,
/// where that has no place, or where its slot is on none of the screens.
pub proof fn what_is_captured(candidate: Candidate, screens: Seq<Rect>, i: int)
    requires
        0 <= i < screens.len(),
    ensures
        candidate.window is None || !candidate.mapped || candidate.slot is None ==> capturing(
            candidate,
            screens,
        ) == Capturing::Release(candidate.pane),
        candidate.window is Some && candidate.mapped && (candidate.slot matches Some(slot)
            && slot.meets(screens[i])) ==> capturing(candidate, screens) == if candidate.bent {
            Capturing::Warp(candidate.pane, candidate.window->0)
        } else {
            Capturing::Mask(candidate.pane, candidate.window->0)
        },
        (candidate.slot matches Some(slot) && forall|k: int|
            0 <= k < screens.len() ==> !slot.meets(#[trigger] screens[k])) ==> capturing(
            candidate,
            screens,
        ) == Capturing::Release(candidate.pane),
{
}

/// What was captured for a window is the first that was.
pub proof fn the_first_capture_counts<V>(all: Seq<(Window, V)>, window: Window, i: int)
    ensures
        captured_at(all, window, i) <==> 0 <= i < all.len() && all[i].0 == window && !exists|k: int|
            0 <= k < i && (#[trigger] all[k]).0 == window,
        not_captured(all, window) <==> !exists|k: int|
            0 <= k < all.len() && (#[trigger] all[k]).0 == window,
{
}

/// A rectangle has its place on the desktop still when a screen sees it: moved
/// back by where the screen is, it is where it was, wherever that can be said in
/// coordinates. Its size is its own.
pub proof fn a_screen_sees_it_where_it_is(rect: Rect, origin: Point)
    ensures
        -0x8000_0000 <= rect.loc.x - origin.x <= 0x7fff_ffff ==> seen_from(rect, origin).loc.x
            + origin.x == rect.loc.x,
        -0x8000_0000 <= rect.loc.y - origin.y <= 0x7fff_ffff ==> seen_from(rect, origin).loc.y
            + origin.y == rect.loc.y,
        rect.loc.x - origin.x < -0x8000_0000 ==> seen_from(rect, origin).loc.x == -0x8000_0000,
        rect.loc.y - origin.y < -0x8000_0000 ==> seen_from(rect, origin).loc.y == -0x8000_0000,
        rect.loc.x - origin.x > 0x7fff_ffff ==> seen_from(rect, origin).loc.x == 0x7fff_ffff,
        rect.loc.y - origin.y > 0x7fff_ffff ==> seen_from(rect, origin).loc.y == 0x7fff_ffff,
        seen_from(rect, origin).size.w == rect.size.w,
        seen_from(rect, origin).size.h == rect.size.h,
{
}

/// What scripts draw at a layer of a screen is all they asked for there and
/// nothing else, in the order they asked: one more is drawn, after the others,
/// exactly where it is of that layer and its area is on the screen.
pub proof fn all_that_scripts_asked_for(
    surfaces: Seq<Surface>,
    surface: Surface,
    layer: Layer,
    screen: Rect,
)
    ensures
        scripted_at(Seq::empty(), layer, screen).len() == 0,
        surface.layer == layer && (surface.area matches Some(area) && area.meets(screen))
            ==> scripted_at(surfaces.push(surface), layer, screen) == scripted_at(
            surfaces,
            layer,
            screen,
        ).push((surface.id, seen_from(surface.area->0, screen.loc))),
        surface.layer != layer || surface.area is None || !surface.area->0.meets(screen)
            ==> scripted_at(surfaces.push(surface), layer, screen) == scripted_at(
            surfaces,
            layer,
            screen,
        ),
{
    assert(surfaces.push(surface).drop_last() =~= surfaces);
}

/// What one window is made of, exactly.
pub proof fn what_a_window_is_made_of(pane: PaneId)
    ensures
        window_steps(Some(pane), true) == seq![
            Part::Chrome(pane, Depth::Above),
            Part::Chrome(pane, Depth::Frame),
            Part::Popups,
            Part::Surfaces,
            Part::Chrome(pane, Depth::Behind),
        ],
        window_steps(Some(pane), false) == seq![
            Part::Chrome(pane, Depth::Above),
            Part::Chrome(pane, Depth::Frame),
            Part::Surfaces,
            Part::Chrome(pane, Depth::Behind),
        ],
        window_steps(None, true) == seq![Part::Popups, Part::Surfaces],
        window_steps(None, false) == seq![Part::Surfaces],
{
}

/// A buffer that is cut is drawn at its own size, and one that is not is scaled
/// to fill what is pictured, made larger or, where the fill is one that enlarges
/// nothing, only smaller.
pub proof fn how_a_buffer_is_scaled(fill: Option<Fill>)
    ensures
        scaled_along(true, fill) == Scaled::Own,
        scaled_along(false, Some(Fill::Stretch)) == Scaled::Filling,
        scaled_along(false, Some(Fill::Hold)) == Scaled::Shrinking,
        scaled_along(false, Some(Fill::Scene)) == Scaled::Shrinking,
        scaled_along(false, None) == Scaled::Filling,
{
}

/// What is shown along an axis that is cut is the number nearest to what is
/// pictured of those from one pixel to all that was committed; along one that is
/// not it is all that was committed.
pub proof fn what_is_shown_is_what_is_pictured(pictured: Pictured, committed: i32, n: int)
    requires
        1 <= n <= committed,
    ensures
        shown_along(false, pictured, committed) == committed,
        1 <= pictured.nearest <= committed ==> shown_along(true, pictured, committed)
            == pictured.nearest,
        ({
            let shown = shown_along(true, pictured, committed);
            if n <= pictured.nearest {
                n <= shown
            } else {
                shown <= n
            }
        }),
{
}

/// Along an axis that is cut there is a pixel to show even of a client that
/// committed none.
pub proof fn a_pixel_is_shown_of_nothing(pictured: Pictured, committed: i32)
    requires
        committed <= 0,
    ensures
        shown_along(true, pictured, committed) == 1,
        shown_along(false, pictured, committed) == committed,
{
}

/// What becomes of a surface drawn through a fit: all of it is drawn where the
/// fit cuts nothing, and otherwise what is inside, if anything is.
pub proof fn what_a_cut_leaves(fit: Fit, inside: bool)
    ensures
        fit.cut && inside ==> fitted_as(fit, inside) == Fitted::Cut,
        fit.cut && !inside ==> fitted_as(fit, inside) == Fitted::Dropped,
        !fit.cut ==> fitted_as(fit, inside) == Fitted::Whole,
        fit.through(Tree::Popups).shown == fit.shown,
        fit.through(Tree::Popups).cut == false,
{
}

/// A pane's pieces are drawn each by its own step, and the client's place is
/// taken by the scene where there is no client that has painted.
pub proof fn what_draws_a_piece(node: Node, depth: Depth)
    ensures
        step_of(node, Piece::Layers(depth)) == Step::Chrome(node.pane, depth),
        node.window is None || !node.ready ==> step_of(node, Piece::Client) == Step::Scene(
            node.pane,
        ),
        node.window is Some && node.ready && node.masked ==> step_of(node, Piece::Client)
            == Step::Masked(node.pane),
        node.window is Some && node.ready && !node.masked ==> step_of(node, Piece::Client)
            == Step::Surfaces(node.pane),
{
}

} // verus!
