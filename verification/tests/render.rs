//! What is drawn in a frame, in what order, and how a client fits its pane.

use std::cell::Cell;
use std::collections::VecDeque;

use solium::depth::by_depth;
use solium::geometry::{Point, Rect, Size};
use solium::pane::PaneId;
use solium::render::{
    cursor, drag_icon, elements, fitted, flat, flat_window_elements, is_focused, on_any_output,
    origin_at, pane_pieces, prepare, redraws, scripted, spare, waited_millis, Candidate, Capturing,
    Carried, Depth, Drawn, Fitted, Flat, Insets, Layer, Node, Painted, Part, Picture, Piece,
    Pictured, Pointer, Prepared, Scaled, Session, Step, Surface, Tree,
};
use solium::resizing::Fill;

/// Drawn size over real size, where there is something of both.
fn ratio(drawn: f64, length: i32) -> f64 {
    if solium::render::ratio(drawn > 0.0, length) {
        drawn / f64::from(length)
    } else {
        1.0
    }
}

/// A rectangle drawn mid-animation.
type Area = (f64, f64, f64, f64);

/// A client's fit with its factors worked out.
#[derive(Clone, Copy, Debug, PartialEq)]
struct Fit {
    factor: (f64, f64),
    crop: Option<Area>,
    shown: Size,
    plan: solium::render::Fit,
}

impl Fit {
    fn of(self, tree: Tree) -> Self {
        let plan = self.plan.of(tree);
        Self {
            crop: self.crop.filter(|_| plan.cut),
            plan,
            ..self
        }
    }
}

fn fit(client: Area, zoom: (f64, f64), committed: Size, tiled: bool, fill: Option<Fill>) -> Fit {
    let length = |drawn: f64, zoom: f64, committed: i32| {
        if zoom > f64::EPSILON {
            drawn / zoom
        } else {
            f64::from(committed)
        }
    };
    let pictured = (
        length(client.2, zoom.0, committed.w),
        length(client.3, zoom.1, committed.h),
    );
    let along = |pictured: f64, committed: i32| Pictured {
        short: pictured < f64::from(committed) - 0.5,
        nearest: pictured.round() as i32,
    };
    let plan = solium::render::fit(
        along(pictured.0, committed.w),
        along(pictured.1, committed.h),
        committed,
        tiled,
        fill,
    );
    let factor = |scaled: Scaled, zoom: f64, pictured: f64, committed: i32| {
        zoom * match scaled {
            Scaled::Own => 1.0,
            Scaled::Filling => ratio(pictured, committed),
            Scaled::Shrinking => ratio(pictured, committed).min(1.0),
        }
    };
    Fit {
        factor: (
            factor(plan.across, zoom.0, pictured.0, committed.w),
            factor(plan.down, zoom.1, pictured.1, committed.h),
        ),
        crop: plan.cut.then_some(client),
        shown: plan.shown,
        plan,
    }
}

/// What one surface is drawn as: whether it was cut, where on the output, and
/// how much of its buffer.
#[derive(Debug, PartialEq)]
struct Shown {
    cut: bool,
    geometry: Rect,
    src: (f64, f64),
}

/// A surface at `at` of `size` device pixels, scaled about `origin` and cut, on
/// an output of a scale. None for a surface of which nothing is left.
fn drawn(
    (at, size): ((i32, i32), (i32, i32)),
    origin: (i32, i32),
    fit: Fit,
    scale: f64,
) -> Option<Shown> {
    let place = |at: i32, origin: i32, factor: f64| {
        (f64::from(at - origin) * factor).round() as i32 + origin
    };
    let whole = Rect::new(
        place(at.0, origin.0, fit.factor.0),
        place(at.1, origin.1, fit.factor.1),
        (f64::from(size.0) * fit.factor.0).round() as i32,
        (f64::from(size.1) * fit.factor.1).round() as i32,
    );
    let crop = fit.crop.map_or(whole, |(x, y, w, h)| {
        let device = |length: f64| (length * scale).round() as i32;
        Rect::new(device(x), device(y), device(w), device(h))
    });
    let inside = whole.overlaps(crop);
    let left = whole.loc.x.max(crop.loc.x);
    let top = whole.loc.y.max(crop.loc.y);
    let right = (whole.loc.x + whole.size.w).min(crop.loc.x + crop.size.w);
    let bottom = (whole.loc.y + whole.size.h).min(crop.loc.y + crop.size.h);
    match fitted(fit.plan, inside) {
        Fitted::Whole => Some(Shown {
            cut: false,
            geometry: whole,
            src: (f64::from(size.0), f64::from(size.1)),
        }),
        Fitted::Cut => Some(Shown {
            cut: true,
            geometry: Rect::new(left, top, right - left, bottom - top),
            src: (
                f64::from(right - left) / fit.factor.0,
                f64::from(bottom - top) / fit.factor.1,
            ),
        }),
        Fitted::Dropped => None,
    }
}

fn cut(x: i32, y: i32, w: i32, h: i32, src: (f64, f64)) -> Option<Shown> {
    Some(Shown {
        cut: true,
        geometry: Rect::new(x, y, w, h),
        src,
    })
}

fn whole(x: i32, y: i32, w: i32, h: i32, src: (f64, f64)) -> Option<Shown> {
    Some(Shown {
        cut: false,
        geometry: Rect::new(x, y, w, h),
        src,
    })
}

/// The zoom of a frame drawn at the rectangle it has.
const AT_REST: (f64, f64) = (1.0, 1.0);

#[test]
fn a_tiled_client_is_cut_to_its_tile_and_not_squashed_into_it() {
    let committed = Size::new(1000, 600);
    let client = (100.0, 50.0, 500.0, 600.0);

    let settled = fit(client, AT_REST, committed, true, None);
    assert_eq!(
        settled.factor,
        (1.0, 1.0),
        "the buffer is drawn at its own size; anything else is a squash"
    );
    assert_eq!(
        settled.shown,
        Size::new(500, 600),
        "a masked client is captured at the tile's share"
    );
    assert_eq!(
        drawn(((100, 50), (1000, 600)), (100, 50), settled, 1.0),
        cut(100, 50, 500, 600, (500.0, 600.0)),
        "the surface is cut to the tile: 500 pixels of screen, showing the \
         first 500 pixels of the buffer"
    );
    assert_eq!(
        drawn(((200, 100), (2000, 1200)), (200, 100), settled, 2.0),
        cut(200, 100, 1000, 1200, (1000.0, 1200.0)),
        "and at 2x the cut is the same tile in twice the pixels"
    );
}

#[test]
fn a_client_with_nothing_to_cut_is_not_cut() {
    let committed = Size::new(500, 600);
    for tiled in [true, false] {
        let settled = fit((100.0, 50.0, 500.0, 600.0), AT_REST, committed, tiled, None);
        assert_eq!(
            (settled.factor, settled.crop, settled.shown),
            ((1.0, 1.0), None, committed),
            "tiled: {tiled}"
        );
        assert_eq!(
            drawn(((100, 50), (500, 600)), (100, 50), settled, 1.0),
            whole(100, 50, 500, 600, (500.0, 600.0))
        );
    }

    let small = Size::new(64, 64);
    let held = fit(
        (400.0, 300.0, 300.0, 200.0),
        AT_REST,
        small,
        false,
        Some(Fill::Stretch),
    );
    assert_eq!(
        (held.factor, held.crop, held.shown),
        ((300.0 / 64.0, 200.0 / 64.0), None, small),
        "a held pane is bridged into the dragged rectangle, not cut to it"
    );

    let free = fit((0.0, 0.0, 250.0, 600.0), AT_REST, committed, false, None);
    assert_eq!(free.factor, (0.5, 1.0));
    assert_eq!(free.crop, None, "nothing cuts a window that is in no tile");
}

#[test]
fn an_animated_tiled_client_is_scaled_with_its_cut_and_not_cut_by_it() {
    let committed = Size::new(1000, 600);

    let half = fit((100.0, 50.0, 250.0, 300.0), (0.5, 0.5), committed, true, None);
    assert_eq!(half.factor, (0.5, 0.5));
    assert_eq!(
        half.shown,
        Size::new(500, 600),
        "the same share of the buffer as settled"
    );
    assert_eq!(
        drawn(((100, 50), (1000, 600)), (100, 50), half, 1.0),
        cut(100, 50, 250, 300, (500.0, 600.0)),
        "at half size the cut is half the tile and shows the same half of \
         the buffer it shows settled"
    );

    let larger = fit((100.0, 50.0, 750.0, 900.0), (1.5, 1.5), committed, true, None);
    assert_eq!(larger.factor, (1.5, 1.5));
    assert_eq!(
        drawn(((100, 50), (1000, 600)), (100, 50), larger, 1.0),
        cut(100, 50, 750, 900, (500.0, 600.0)),
        "and enlarged it is the tile enlarged, not more of the buffer"
    );
}

#[test]
fn a_glide_that_narrows_a_tiled_window_cuts_it_and_does_not_zoom_it() {
    let committed = Size::new(1900, 1000);

    let first = fit((0.0, 0.0, 1900.0, 1000.0), AT_REST, committed, true, None);
    assert_eq!(
        (first.factor, first.crop, first.shown),
        ((1.0, 1.0), None, committed),
        "the first frame is the frame before the sweep"
    );

    let early = fit((0.0, 0.0, 1720.0, 1000.0), AT_REST, committed, true, None);
    assert_eq!(
        early.factor,
        (1.0, 1.0),
        "not zoomed: this is the window on its way, at its own size"
    );
    assert_eq!(early.shown, Size::new(1720, 1000));
    assert_eq!(
        drawn(((0, 0), (1900, 1000)), (0, 0), early, 1.0),
        cut(0, 0, 1720, 1000, (1720.0, 1000.0)),
        "1720 pixels of screen, showing the first 1720 pixels of buffer"
    );

    let landed = fit((0.0, 0.0, 950.0, 1000.0), AT_REST, committed, true, None);
    assert_eq!(
        drawn(((0, 0), (1900, 1000)), (0, 0), landed, 1.0),
        cut(0, 0, 950, 1000, (950.0, 1000.0)),
        "and it lands on the settled window, cut to its tile"
    );

    let grown = fit(
        (0.0, 0.0, 500.0, 400.0),
        AT_REST,
        Size::new(600, 400),
        true,
        None,
    );
    assert_eq!(
        grown.factor,
        (1.0, 1.0),
        "the first frame of a tile growing under an oversized client is \
         the cut it already had"
    );
    assert_eq!(
        drawn(((0, 0), (600, 400)), (0, 0), grown, 1.0),
        cut(0, 0, 500, 400, (500.0, 400.0))
    );
}

#[test]
fn a_glide_between_tiles_of_different_shapes_is_fitted_per_axis() {
    let client = (0.0, 0.0, 1400.0, 1000.0);

    let unanswered = fit(client, AT_REST, Size::new(1900, 1000), true, None);
    assert_eq!(unanswered.factor, (1.0, 1.0));
    assert_eq!(unanswered.crop, Some(client));
    assert_eq!(unanswered.shown, Size::new(1400, 1000));

    let answered = fit(client, AT_REST, Size::new(950, 1000), true, None);
    assert_eq!(
        answered.factor,
        (1400.0 / 950.0, 1.0),
        "stretched across and not down"
    );
    assert_eq!(answered.crop, None, "and nothing to cut");

    let mixed = fit(client, AT_REST, Size::new(1900, 800), true, None);
    assert_eq!(mixed.factor, (1.0, 1000.0 / 800.0));
    assert_eq!(mixed.crop, Some(client));
    assert_eq!(
        mixed.shown,
        Size::new(1400, 800),
        "cut across, the whole of it down"
    );
}

#[test]
fn a_surface_wholly_past_the_tile_is_dropped() {
    let settled = fit(
        (100.0, 50.0, 500.0, 600.0),
        AT_REST,
        Size::new(1000, 600),
        true,
        None,
    );
    assert_eq!(
        drawn(((700, 50), (200, 100)), (100, 50), settled, 1.0),
        None
    );
    assert!(
        drawn(((550, 50), (200, 100)), (100, 50), settled, 1.0)
            .is_some_and(|shown| shown.cut && shown.geometry == Rect::new(550, 50, 50, 100)),
        "one that straddles the edge keeps the part inside it"
    );
}

#[test]
fn a_popup_reaches_past_its_parents_tile() {
    let parent = fit(
        (100.0, 50.0, 500.0, 600.0),
        AT_REST,
        Size::new(1000, 600),
        true,
        None,
    );
    let menu = ((550, 80), (200, 300));

    assert_eq!(
        drawn(menu, (100, 50), parent.of(Tree::Surfaces), 1.0).map(|shown| shown.geometry),
        Some(Rect::new(550, 80, 50, 300)),
        "through the parent's own fit the menu would keep 50 of its 200 pixels"
    );
    assert_eq!(
        drawn(menu, (100, 50), parent.of(Tree::Popups), 1.0),
        whole(550, 80, 200, 300, (200.0, 300.0)),
        "and through the fit popups are given, all of it is drawn"
    );
    assert_eq!(parent.plan.of(Tree::Popups), parent.plan.uncut());
    assert_eq!(
        fitted(parent.plan.of(Tree::Popups), false),
        Fitted::Whole,
        "even one that is past the tile altogether"
    );
}

#[test]
fn a_held_picture_is_not_enlarged_and_a_sliver_is_still_shown() {
    let small = Size::new(64, 64);
    let held = fit((0.0, 0.0, 300.0, 32.0), AT_REST, small, false, Some(Fill::Hold));
    assert_eq!(held.factor, (1.0, 0.5));
    let sliver = fit((0.0, 0.0, 0.2, 64.0), AT_REST, small, true, None);
    assert_eq!(sliver.shown, Size::new(1, 64));
    let nothing = fit((0.0, 0.0, 10.0, 10.0), (0.0, 0.0), small, true, None);
    assert_eq!((nothing.crop, nothing.shown), (None, small));
    assert_eq!(spare(None), (false, false));
    assert_eq!(spare(Some((true, false))), (true, false));
}

#[test]
fn a_hotspot_moves_the_picture_up_and_left_of_the_pointer() {
    let nearest = |x: f64, y: f64| Point::new(x.round() as i32, y.round() as i32);
    let pointer = nearest(100.0, 200.0);

    assert_eq!(
        origin_at(pointer, Point::new(0, 0)),
        Point::new(100, 200),
        "a picture whose hot point is its own corner sits exactly at the \
         pointer -- which is where the protocol puts a drag icon, since \
         nothing ever gives one a hotspot"
    );
    assert_eq!(
        origin_at(pointer, Point::new(12, 12)),
        Point::new(88, 188),
        "a hot point twelve pixels into the image puts the image's corner \
         twelve pixels up and left, so the hot point lands on the pointer"
    );
    assert_eq!(
        origin_at(pointer, Point::new(-5, 5)),
        Point::new(105, 195)
    );
    assert_eq!(
        origin_at(nearest(99.6, 199.4), Point::new(0, 0)),
        Point::new(100, 199)
    );
}

#[test]
fn the_pointer_carries_what_it_was_given() {
    let at = Some(Point::new(100, 200));
    assert_eq!(cursor(at, Pointer::Hidden), Carried::Nothing);
    assert_eq!(cursor(None, Pointer::Named), Carried::Nothing);
    assert_eq!(cursor(at, Pointer::Named), Carried::Own);
    assert_eq!(
        cursor(at, Pointer::Surface(Point::new(4, 6))),
        Carried::Surface(Point::new(96, 194))
    );
    assert_eq!(
        drag_icon(at, Some(Point::new(0, 0))),
        Carried::Surface(Point::new(100, 200))
    );
    assert_eq!(drag_icon(at, None), Carried::Nothing);
    assert_eq!(drag_icon(None, Some(Point::new(0, 0))), Carried::Nothing);
}

fn screen() -> Rect {
    Rect::new(1920, 0, 1920, 1080)
}

fn id(id: u64) -> PaneId {
    PaneId { id }
}

/// A window in the middle of the screen, drawn from its surfaces.
fn node(pane: u64) -> Node {
    Node {
        pane: id(pane),
        window: Some(pane),
        slot: Rect::new(2000, 100, 640, 480),
        ready: true,
        scene: false,
        flat: true,
        reaches: true,
        mapped: true,
        warped: false,
        toplevel: true,
        masked: false,
    }
}

/// Panes that are all at one depth.
fn level(nodes: &[Node]) -> Vec<(Node, u32)> {
    nodes.iter().map(|node| (*node, 0.0_f32.to_bits())).collect()
}

const UNLOCKED: Session = Session {
    lock: None,
    output: true,
    decorated: false,
};

fn picture() -> Picture {
    Picture::screen(screen(), 1.0_f64.to_bits())
}

#[test]
fn the_drag_icon_is_emitted_below_the_lock_screens_early_return() {
    for surface in [true, false] {
        let locked = Session {
            lock: Some(surface),
            ..UNLOCKED
        };
        let mut expected = vec![Step::Cursor];
        if surface {
            expected.push(Step::LockSurface);
        }
        expected.push(Step::Blank);
        assert_eq!(
            elements(picture(), locked, level(&[node(1)])),
            expected,
            "a locked session would draw a client's surface over the lock screen"
        );
    }
    assert!(elements(picture(), UNLOCKED, vec![]).contains(&Step::DragIcon));
}

#[test]
fn a_frame_is_stacked_from_the_pointer_to_the_wallpaper() {
    assert_eq!(
        elements(picture(), UNLOCKED, level(&[node(1)])),
        vec![
            Step::Cursor,
            Step::DragIcon,
            Step::Scripted(Layer::Overlay),
            Step::AnchoredAbove,
            Step::Scripted(Layer::Top),
            Step::Popups(id(1)),
            Step::Chrome(id(1), Depth::Above),
            Step::Chrome(id(1), Depth::Frame),
            Step::Surfaces(id(1)),
            Step::Chrome(id(1), Depth::Behind),
            Step::Scripted(Layer::Bottom),
            Step::AnchoredBelow,
            Step::Scripted(Layer::Background),
        ]
    );
    let capture = Picture {
        cursor: false,
        ..picture()
    };
    let headless = Session {
        output: false,
        ..UNLOCKED
    };
    assert_eq!(
        elements(capture, headless, vec![]),
        vec![
            Step::Scripted(Layer::Overlay),
            Step::Scripted(Layer::Top),
            Step::Scripted(Layer::Bottom),
            Step::Scripted(Layer::Background),
        ]
    );
}

#[test]
fn a_raised_window_is_drawn_before_the_rest_of_the_stack() {
    let order = vec![
        (node(1), 0.0_f32.to_bits()),
        (node(2), 3.5_f32.to_bits()),
        (node(3), 0.0_f32.to_bits()),
        (node(4), (-1.0_f32).to_bits()),
    ];
    let surfaces: Vec<Step> = elements(picture(), UNLOCKED, order)
        .into_iter()
        .filter(|step| matches!(step, Step::Surfaces(_)))
        .collect();
    assert_eq!(
        surfaces,
        vec![
            Step::Surfaces(id(2)),
            Step::Surfaces(id(1)),
            Step::Surfaces(id(3)),
            Step::Surfaces(id(4)),
        ]
    );
}

/// What is drawn of one pane, without the rest of the frame.
fn of_pane(node: Node, decorated: bool) -> Vec<Step> {
    let session = Session {
        decorated,
        ..UNLOCKED
    };
    let steps = elements(picture(), session, level(&[node]));
    steps[5..steps.len() - 3].to_vec()
}

#[test]
fn a_window_is_drawn_on_the_screens_it_lives_on() {
    let elsewhere = Node {
        slot: Rect::new(0, 100, 640, 480),
        flat: false,
        ..node(1)
    };
    assert_eq!(of_pane(elsewhere, false), vec![]);
    let across = Node {
        slot: Rect::new(1900, 100, 640, 480),
        ..node(1)
    };
    assert_eq!(of_pane(across, false).len(), 5);
    let touching = Node {
        slot: Rect::new(1280, 100, 640, 480),
        ..node(1)
    };
    assert_eq!(of_pane(touching, false), vec![]);
    let moved_off = Node {
        reaches: false,
        ..node(1)
    };
    assert_eq!(of_pane(moved_off, false), vec![]);
    let bent_off = Node {
        reaches: false,
        flat: false,
        warped: true,
        ..node(1)
    };
    assert_eq!(of_pane(bent_off, false), vec![Step::Warped(id(1))]);
}

#[test]
fn a_pane_is_its_scene_until_its_client_is_ready() {
    let waiting = Node {
        window: None,
        scene: true,
        ..node(1)
    };
    assert_eq!(of_pane(waiting, false), vec![Step::Scene(id(1))]);
    assert_eq!(
        of_pane(waiting, true),
        vec![
            Step::Chrome(id(1), Depth::Above),
            Step::Chrome(id(1), Depth::Frame),
            Step::Scene(id(1)),
            Step::Chrome(id(1), Depth::Behind),
        ]
    );
    let unready = Node {
        ready: false,
        scene: true,
        ..node(1)
    };
    assert_eq!(of_pane(unready, false), vec![Step::Scene(id(1))]);
    let going = Node {
        ready: false,
        ..node(1)
    };
    assert_eq!(of_pane(going, true), vec![], "nothing of either to draw");
    let fading = Node {
        scene: true,
        masked: true,
        toplevel: false,
        ..node(1)
    };
    assert_eq!(
        of_pane(fading, false),
        vec![
            Step::Scene(id(1)),
            Step::Chrome(id(1), Depth::Above),
            Step::Chrome(id(1), Depth::Frame),
            Step::Masked(id(1)),
            Step::Chrome(id(1), Depth::Behind),
        ],
        "the scene dissolves over the client"
    );
    let nowhere = Node {
        scene: true,
        mapped: false,
        ..node(1)
    };
    assert_eq!(of_pane(nowhere, false), vec![Step::Scene(id(1))]);
}

#[test]
fn only_what_is_on_a_screen_is_captured() {
    let candidate = Candidate {
        pane: id(1),
        window: Some(9),
        mapped: true,
        slot: Some(Rect::new(0, 0, 100, 100)),
        bent: true,
    };
    let screens = [Rect::new(0, 0, 1920, 1080), screen()];
    let parked = Candidate {
        slot: Some(Rect::new(-5000, 0, 100, 100)),
        ..candidate
    };
    let flat = Candidate {
        bent: false,
        ..candidate
    };
    let empty = Candidate {
        window: None,
        ..candidate
    };
    let unmapped = Candidate {
        mapped: false,
        ..candidate
    };
    let slotless = Candidate {
        slot: None,
        ..candidate
    };
    assert_eq!(
        prepare(
            &[candidate, parked, flat, empty, unmapped, slotless],
            &screens
        ),
        vec![
            Capturing::Warp(id(1), 9),
            Capturing::Release(id(1)),
            Capturing::Mask(id(1), 9),
            Capturing::Release(id(1)),
            Capturing::Release(id(1)),
            Capturing::Release(id(1)),
        ]
    );
    assert!(on_any_output(Rect::new(1900, 0, 40, 40), &screens));
    assert!(!on_any_output(Rect::new(0, 0, 40, 40), &[]));
}

#[test]
fn what_was_captured_is_lent_to_every_screen() {
    let mut prepared: Prepared<&str, u32> = Prepared::new();
    prepared.warped(7, Some("bent"));
    prepared.warped(9, None);
    assert!(!prepared.masked(8, Some(3)), "it is drawn from");
    assert!(prepared.masked(10, None), "there is nothing to keep");
    assert_eq!(prepared.texture(9), None);
    assert_eq!(prepared.pass(10), None);
    for _ in 0..2 {
        assert_eq!(prepared.texture(7), Some(&"bent"));
        assert_eq!(prepared.pass(8), Some(&3));
    }
    assert_eq!(prepared.texture(8), None);
    assert_eq!(prepared.pass(7), None);
}

#[test]
fn what_scripts_draw_is_placed_before_it_is_culled() {
    let surface = |id: u64, layer: Layer, area: Option<Rect>| Surface { id, layer, area };
    let on = Rect::new(1920, 0, 1920, 40);
    let surfaces = [
        surface(1, Layer::Top, Some(on)),
        surface(2, Layer::Bottom, Some(on)),
        surface(3, Layer::Top, None),
        surface(4, Layer::Top, Some(Rect::new(3840, 0, 1920, 40))),
        surface(5, Layer::Top, Some(Rect::new(3800, 1000, 100, 100))),
    ];
    assert_eq!(
        scripted(&surfaces, Layer::Top, screen()),
        vec![
            (1, Rect::new(0, 0, 1920, 40)),
            (5, Rect::new(1880, 1000, 100, 100)),
        ]
    );
    assert!(redraws(&[false, true, false]));
    assert!(!redraws(&[false]) && !redraws(&[]));
}

#[test]
fn a_window_is_captured_at_its_panes_size() {
    let insets = Insets {
        top: 30,
        right: 0,
        bottom: 0,
        left: 0,
    };
    let tile = Flat {
        outer: Size::new(500, 630),
        insets,
    };
    let committed = Flat {
        outer: Size::new(1000, 630),
        insets,
    };
    assert_eq!(flat(Some(tile), Some(committed)), Some(tile));
    assert_eq!(flat(None, Some(committed)), Some(committed));
    assert_eq!(flat(None, None), None);
    assert_eq!(
        flat_window_elements(Some(tile), Some(id(4)), true),
        vec![
            Part::Chrome(id(4), Depth::Above),
            Part::Chrome(id(4), Depth::Frame),
            Part::Popups,
            Part::Surfaces,
            Part::Chrome(id(4), Depth::Behind),
        ]
    );
    assert_eq!(
        flat_window_elements(Some(tile), None, false),
        vec![Part::Surfaces]
    );
    assert_eq!(flat_window_elements(None, Some(id(4)), true), vec![]);
}

#[test]
fn a_scene_is_told_how_long_it_waited() {
    assert_eq!(waited_millis(None), 0);
    assert_eq!(waited_millis(Some(1_999_999)), 1);
    assert_eq!(waited_millis(Some(u128::MAX)), i32::MAX);
    assert!(is_focused(id(3), Some(id(3))));
    assert!(!is_focused(id(3), Some(id(4))) && !is_focused(id(3), None));
}

/// A scene that animates: one entry per tick that is left, saying whether that
/// tick moves something the scene renders.
struct Scene {
    dirty: bool,
    steps: VecDeque<bool>,
    draws: u32,
}

impl Scene {
    fn animating(steps: &[bool]) -> Self {
        Self {
            dirty: false,
            steps: steps.iter().copied().collect(),
            draws: 0,
        }
    }

    fn moving(ticks: usize) -> Self {
        Self::animating(&vec![true; ticks])
    }

    fn tick(&mut self) {
        if let Some(moved) = self.steps.pop_front() {
            self.dirty |= moved;
        }
    }

    fn draw(&mut self) {
        self.dirty = false;
        self.draws += 1;
    }

    fn settled(&self) -> bool {
        self.steps.is_empty()
    }
}

impl Painted for Scene {
    fn dirty(&self) -> bool {
        self.dirty
    }

    fn moving(&self) -> bool {
        !self.steps.is_empty()
    }

    fn something_new_to_draw(&self) -> bool {
        self.dirty
    }

    fn animation_in_flight(&self) -> bool {
        !self.steps.is_empty()
    }
}

/// A scene that counts how often each question is asked of it.
struct Asked {
    fresh: bool,
    running: bool,
    flag: Cell<u32>,
    walk: Cell<u32>,
}

impl Painted for Asked {
    fn dirty(&self) -> bool {
        self.fresh
    }

    fn moving(&self) -> bool {
        self.running
    }

    fn something_new_to_draw(&self) -> bool {
        self.flag.set(self.flag.get() + 1);
        self.fresh
    }

    fn animation_in_flight(&self) -> bool {
        self.walk.set(self.walk.get() + 1);
        self.running
    }
}

#[test]
fn a_scene_with_something_new_to_draw_is_not_asked_whether_it_is_animating() {
    for (fresh, running) in [(false, false), (false, true), (true, false), (true, true)] {
        let mut scene = Asked {
            fresh,
            running,
            flag: Cell::new(0),
            walk: Cell::new(0),
        };
        let drawn = Drawn::drawing(&mut scene, |scene| {
            scene.fresh = false;
            Some(7_u8)
        });
        assert_eq!((drawn.element, drawn.animating), (Some(7), fresh || running));
        assert_eq!((scene.flag.get(), scene.walk.get()), (1, u32::from(!fresh)));
    }
}

/// One frame over one scene. Says whether there will be another.
fn one_frame(scene: &mut Scene) -> bool {
    scene.tick();
    Drawn::drawing(scene, |scene| {
        scene.draw();
        None::<u8>
    })
    .animating
}

/// Draw frames until none is asked for, or give up.
fn until_idle(scene: &mut Scene, limit: u32) -> Option<u32> {
    let mut frames = 0;
    while frames < limit {
        frames += 1;
        if !one_frame(scene) {
            return Some(frames);
        }
    }
    None
}

#[test]
fn an_animating_scene_asks_for_the_frame_after_it() {
    let mut scene = Scene::moving(60);
    for step in 1..=60_u32 {
        assert!(
            one_frame(&mut scene),
            "frame {step} did not ask for another: the animation stops here"
        );
    }
    assert_eq!(scene.draws, 60, "a frame was asked for and not drawn");
}

#[test]
fn a_tick_that_moves_nothing_still_asks_for_the_frame_after_it() {
    let mut scene = Scene::animating(&[false, false, false, true]);
    let frames = until_idle(&mut scene, 100);
    assert!(
        scene.settled(),
        "the loop stopped after {frames:?} frames with {} ticks of the animation left: \
         it is frozen there for good, because nothing else is going to damage the screen",
        scene.steps.len()
    );
    assert_eq!(
        frames,
        Some(5),
        "four ticks of animation and one to notice it is over"
    );
}

#[test]
fn a_quiet_stretch_in_the_middle_does_not_end_the_animation() {
    let mut scene = Scene::animating(&[true, true, false, false, false, false, true, true]);
    until_idle(&mut scene, 100);
    assert!(
        scene.settled(),
        "the animation stopped {} ticks short, mid-way through",
        scene.steps.len()
    );
}

#[test]
fn a_settled_scene_stops_asking_one_frame_later() {
    let mut scene = Scene::moving(1);
    assert_eq!(
        until_idle(&mut scene, 100),
        Some(2),
        "a scene with nothing left to do kept the compositor drawing"
    );
    assert_eq!(scene.draws, 2);
}

#[test]
fn an_animation_that_ends_stops_the_loop() {
    for ticks in [1_usize, 2, 8, 60] {
        let mut scene = Scene::moving(ticks);
        let frames = until_idle(&mut scene, 10_000);
        assert_eq!(
            frames,
            Some(u32::try_from(ticks).unwrap_or(u32::MAX) + 1),
            "an animation of {ticks} ticks did not let the loop go idle right after it"
        );
    }
}

#[test]
fn a_frame_drawn_for_another_reason_does_not_restart_a_finished_animation() {
    let mut scene = Scene::moving(3);
    assert!(until_idle(&mut scene, 100).is_some());
    assert!(
        !one_frame(&mut scene),
        "a frame the pointer asked for left the compositor asking for more"
    );
}

#[test]
fn a_client_is_drawn_between_two_layers_of_its_own_style() {
    let layers_at = |depth: Depth| match depth {
        Depth::Above => vec!["spikes"],
        Depth::Frame => vec!["bar"],
        Depth::Behind => vec!["glow"],
    };

    let mut order: Vec<&str> = Vec::new();
    pane_pieces(&mut order, |into, piece| match piece {
        Piece::Layers(depth) => into.extend(layers_at(depth)),
        Piece::Client => into.push("<client>"),
    });

    assert_eq!(
        order,
        ["spikes", "bar", "<client>", "glow"],
        "topmost first: `above`, `frame`, the client, `behind`"
    );

    let place = |name| {
        order
            .iter()
            .position(|each| *each == name)
            .expect("every layer of the example is in the list")
    };
    assert!(
        place("spikes") < place("<client>"),
        "`above` must be over the client -- it is the half of this that \
         a single decoration file could never do"
    );
    assert!(
        place("<client>") < place("glow"),
        "`behind` must be under the client, which is the other half"
    );
    assert!(
        place("bar") < place("<client>"),
        "and a `frame` layer still covers the client, as a decoration \
         always has"
    );
}

#[test]
fn a_window_at_real_size_is_not_scaled() {
    assert!((ratio(800.0, 800) - 1.0).abs() < f64::EPSILON);
}

#[test]
fn half_size_is_half_scale() {
    assert!((ratio(400.0, 800) - 0.5).abs() < f64::EPSILON);
}

#[test]
fn degenerate_sizes_fall_back_to_no_scaling() {
    assert!((ratio(400.0, 0) - 1.0).abs() < f64::EPSILON);
    assert!((ratio(0.0, 800) - 1.0).abs() < f64::EPSILON);
    assert!((ratio(-5.0, 800) - 1.0).abs() < f64::EPSILON);
}

/// Names in the order their depths put them in.
fn ordered<'a>(nodes: &[(&'a str, f32)]) -> Vec<&'a str> {
    let mut nodes: Vec<(&str, u32)> = nodes
        .iter()
        .map(|(name, depth)| (*name, depth.to_bits()))
        .collect();
    by_depth(&mut nodes);
    nodes.iter().map(|(name, _)| *name).collect()
}

#[test]
fn equal_depths_keep_the_stacking_order() {
    assert_eq!(
        ordered(&[("a", 0.0), ("b", 0.0), ("c", 0.0)]),
        vec!["a", "b", "c"]
    );
    assert_eq!(
        ordered(&[("a", -0.0), ("b", 0.0), ("c", -0.0)]),
        vec!["a", "b", "c"]
    );
}

#[test]
fn a_higher_depth_is_drawn_in_front() {
    assert_eq!(
        ordered(&[("under", 0.0), ("over", 2.0), ("between", 1.0)]),
        vec!["over", "between", "under"]
    );
    assert_eq!(
        ordered(&[("under", -2.0), ("least", f32::NEG_INFINITY), ("over", -1.5)]),
        vec!["over", "under", "least"]
    );
}

#[test]
fn raised_cards_sort_and_the_rest_keep_their_order() {
    assert_eq!(
        ordered(&[
            ("top", 0.0),
            ("second", 0.0),
            ("raised", 3.0),
            ("fourth", 0.0),
            ("fifth", 0.0),
            ("middle", 1.0),
        ]),
        vec!["raised", "middle", "top", "second", "fourth", "fifth"]
    );
}

#[test]
fn a_depth_that_is_not_a_number_is_left_where_it_is() {
    assert_eq!(
        ordered(&[("a", 0.0), ("nan", f32::NAN), ("b", 0.0)]),
        vec!["a", "nan", "b"]
    );
}
