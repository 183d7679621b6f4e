//! Panes: what they show, what they are told, and what becomes of them when the
//! windows change.

use std::sync::atomic::{AtomicU64, Ordering};

use solium::geometry::Rect;
use solium::loading::{expand, join, loading_source, scene_file, shipped, Source};
use solium::pane::{Content, Fade, Frame, Ids, Kit, Pane, PaneId, Panes};
use solium::time::{MILLISECOND, SECOND};

/// Panes that draw with nothing.
struct Plain;

impl Kit for Plain {
    type Scene = &'static str;
    type Decoration = &'static str;
    type Frame = u32;
    type Animation = u32;
    type Texture = u32;
}

static NEXT: AtomicU64 = AtomicU64::new(1);

/// Identities that no other test has.
fn fresh() -> Ids {
    Ids {
        next: NEXT.fetch_add(1_000, Ordering::Relaxed),
    }
}

fn loading(
    program: &str,
    pid: Option<u32>,
    slot: Rect,
    source: String,
    scene: Option<&'static str>,
    now: u128,
) -> Pane<Plain> {
    Pane::loading(&mut fresh(), program, pid, slot, source, scene, now)
}

fn slot() -> Rect {
    Rect::new(10, 20, 300, 200)
}

#[test]
fn identities_are_never_reused() {
    let first = loading("kitty", None, slot(), String::new(), None, 0);
    let second = loading("kitty", None, slot(), String::new(), None, 0);
    assert_ne!(first.id(), second.id());
}

#[test]
fn adoption_keeps_the_identity_and_the_slot() {
    let mut pane = loading(
        "kitty",
        Some(42),
        slot(),
        String::new(),
        None,
        0,
    );
    let (id, where_it_was) = (pane.id(), pane.slot());
    assert!(pane.is_loading());
    assert!(pane.awaits(&[7, 42, 1]));

    pane.leave(500 * MILLISECOND);
    assert_eq!(pane.id(), id);
    assert_eq!(pane.slot(), where_it_was);
    assert!(!pane.is_loading());
    assert!(!pane.awaits(&[42]), "a pane with content awaits nothing");
}

#[test]
fn an_unmanaged_pane_keeps_the_slot_it_was_mapped_with() {
    let mapped_with = Rect::new(640, 360, 220, 140);
    let mut pane = loading(
        "steam-menu",
        None,
        mapped_with,
        String::new(),
        None,
        0,
    );
    assert!(pane.managed(), "a pane is managed until told otherwise");

    pane.unmanage();

    assert!(
        !pane.managed(),
        "it has to say so wherever a pane is about to be placed"
    );
    assert_eq!(
        pane.slot(),
        mapped_with,
        "and must do nothing else -- the geometry a pane was mapped \
         with is what the placement guard exists to protect"
    );
}

#[test]
fn only_a_loading_pane_gives_up() {
    let patience = 8 * SECOND;
    let pane = loading(
        "slow",
        Some(9),
        slot(),
        String::new(),
        None,
        0,
    );
    assert!(!pane.expired(7 * SECOND, patience));
    assert!(pane.expired(8 * SECOND, patience));

    let mut left = loading(
        "slow",
        Some(9),
        slot(),
        String::new(),
        None,
        0,
    );
    left.leave(SECOND);
    assert!(
        !left.expired(60 * SECOND, patience),
        "a pane that is leaving is measured by its animation, not by patience"
    );
}

#[test]
fn the_loading_scene_is_a_setting() {
    let file = |chosen: Option<&str>| {
        let source = loading_source(None, chosen, Some("/home/lily"));
        scene_file(source, Some("/home/lily/.config/solium/qml"), false, "/usr/share/solium/qml")
    };
    assert!(
        file(None).ends_with("qml/loading/window.qml"),
        "the default is the one that ships"
    );
    assert!(file(Some("plain")).ends_with("qml/loading/plain.qml"));
    assert_eq!(file(Some("/tmp/mine.qml")), "/tmp/mine.qml");
}

#[test]
fn syncing_against_an_empty_space_keeps_what_is_still_waiting() {
    let mut panes: Panes<Plain> = Panes::default();
    let mut opened = Vec::new();
    for name in ["kitty", "firefox"] {
        let pane = loading(name, Some(1), slot(), String::new(), None, 0);
        opened.push(panes.open(pane));
    }

    assert!(
        panes.sync(&mut fresh(), &[], SECOND),
        "opening them is a change, and it is reported once"
    );
    assert!(
        !panes.sync(&mut fresh(), &[], 2 * SECOND),
        "and then nothing came and nothing went"
    );
    assert_eq!(panes.len(), 2);
    assert_eq!(
        panes.all().iter().map(Pane::id).collect::<Vec<_>>(),
        opened,
        "and they kept their order"
    );
}

#[test]
fn a_script_addresses_a_pane_by_its_id() {
    let mut panes: Panes<Plain> = Panes::default();
    let id = panes.open(loading(
        "kitty",
        None,
        slot(),
        String::new(),
        None,
        0,
    ));

    assert_eq!(panes.by_script_id(id.get()).map(Pane::id), Some(id));
    assert!(
        panes.by_script_id(id.get() + 1000).is_none(),
        "an id that no longer exists is not found, not a panic"
    );
}

#[test]
fn a_pane_is_pending_until_it_is_told_otherwise() {
    let mut pane = loading("kitty", None, slot(), String::new(), None, 0);
    assert!(matches!(pane.frame(), Frame::Pending));
    pane.set_frame(Frame::Bare);
    assert!(matches!(pane.frame(), Frame::Bare));
}

#[test]
fn a_pane_cannot_be_both_styled_and_bare() {
    let mut pane = loading("kitty", None, slot(), String::new(), None, 0);
    for frame in [Frame::Pending, Frame::Bare, Frame::Styled("a border")] {
        pane.set_frame(frame);
        let styled = match pane.frame() {
            Frame::Styled(_) => true,
            Frame::Pending | Frame::Bare => false,
        };
        assert_eq!(
            pane.decoration().is_some(),
            styled,
            "whether there is a scene is the frame, not a second opinion \
             about it"
        );
        assert_eq!(
            pane.decoration_mut().is_some(),
            styled,
            "and writing to it reaches the same value reading it does"
        );
    }

}

#[test]
fn a_pane_has_no_timers_until_somebody_asks_it_to_close() {
    let mut pane = loading("kitty", None, slot(), String::new(), None, 0);
    assert!(pane.closing_at().is_none());
    assert!(pane.asked_at().is_none());

    pane.begin_closing(190 * MILLISECOND);
    assert_eq!(pane.closing_at(), Some(190 * MILLISECOND));
    pane.stop_closing();
    pane.mark_asked(190 * MILLISECOND);
    assert!(pane.closing_at().is_none(), "the request has gone out");
    assert_eq!(
        pane.asked_at(),
        Some(190 * MILLISECOND),
        "and it is still being waited on"
    );
    pane.forget_asked();
    assert!(pane.asked_at().is_none());
}

#[test]
fn a_closing_timer_goes_when_the_pane_does() {
    let mut panes: Panes<Plain> = Panes::default();
    let id = panes.open(loading(
        "kitty",
        None,
        slot(),
        String::new(),
        None,
        0,
    ));
    if let Some(pane) = panes.get_mut(id) {
        pane.begin_closing(10 * MILLISECOND);
        pane.mark_asked(4 * MILLISECOND);
    }
    assert_eq!(
        panes.get(id).and_then(Pane::closing_at),
        Some(10 * MILLISECOND)
    );

    assert!(panes.remove(id));
    assert!(
        panes.get(id).is_none(),
        "and both of its timers went with it; there is nothing left to retain"
    );
}

#[test]
fn a_reconcile_does_not_forget_what_a_pane_was_told() {
    let mut panes: Panes<Plain> = Panes::default();
    let id = panes.open(loading(
        "kitty",
        None,
        slot(),
        String::new(),
        None,
        0,
    ));
    if let Some(pane) = panes.get_mut(id) {
        pane.begin_closing(10 * MILLISECOND);
        pane.mark_asked(4 * MILLISECOND);
    }

    panes.sync(&mut fresh(), &[], SECOND);
    assert_eq!(
        panes.get(id).and_then(Pane::closing_at),
        Some(10 * MILLISECOND)
    );
    assert_eq!(
        panes.get(id).and_then(Pane::asked_at),
        Some(4 * MILLISECOND)
    );
}

#[test]
fn a_pane_with_no_process_adopts_nothing() {
    let pane = loading(
        "mystery",
        None,
        slot(),
        String::new(),
        None,
        0,
    );
    assert!(!pane.awaits(&[1, 2, 3]));
}

#[test]
fn a_tile_left_for_a_maximise_is_kept_for_the_way_back_and_no_longer() {
    let tile = Rect::new(0, 0, 494, 600);
    let newer = Rect::new(506, 0, 494, 600);
    let mut pane = loading("kitty", None, slot(), String::new(), None, 0);

    pane.set_placed(tile);
    pane.leave_tile();
    assert_eq!(pane.placed(), None, "a maximised window is in no tile");
    pane.leave_tile();
    pane.return_to_tile();
    assert_eq!(
        pane.placed(),
        Some(tile),
        "and the way back puts it in the tile it left, through a second \
         leave with nothing to take"
    );

    pane.leave_tile();
    pane.set_placed(newer);
    pane.return_to_tile();
    assert_eq!(
        pane.placed(),
        Some(newer),
        "a layout's newer tile is not overwritten by the kept one"
    );

    pane.leave_tile();
    pane.untile();
    pane.return_to_tile();
    assert_eq!(
        pane.placed(),
        None,
        "a window let go by its layout stays out of every tile"
    );
}

#[test]
fn a_windows_way_back_outlives_its_frame() {
    let mut pane = loading("kitty", None, slot(), String::new(), None, 0);
    assert_eq!(
        pane.restore(),
        None,
        "a new window has nowhere to go back to"
    );

    let before = Rect::new(400, 300, 640, 480);
    pane.set_restore(Some(before));
    pane.set_frame(Frame::Bare);
    pane.set_frame(Frame::Pending);
    pane.set_frame(Frame::Bare);

    assert_eq!(
        pane.restore(),
        Some(before),
        "reading it does not use it up"
    );
    assert_eq!(
        pane.take_restore(),
        Some(before),
        "the frame came and went three times, and the way back is still here"
    );
    assert_eq!(
        pane.take_restore(),
        None,
        "and it is used once: the next maximise toggle maximises, rather \
         than jumping back to a rect from before the last one"
    );
}

fn kitty(scene: Option<&'static str>) -> Pane<Plain> {
    loading("kitty", Some(42), slot(), String::new(), scene, SECOND)
}

#[test]
fn a_pane_that_adopts_a_window_fades_its_scene_off_it() {
    let mut pane = kitty(Some("a scene"));
    let id = pane.id();
    assert_eq!(pane.program(), Some("kitty"));
    assert!(!pane.fade(2 * SECOND), "there is no window to fade off");
    pane.adopt(7);
    assert_eq!((pane.id(), pane.client()), (id, Some(7)));
    assert!(pane.adopted() && pane.has_scene() && !pane.is_loading());
    assert_eq!(pane.program(), None);
    assert_eq!(pane.scene_alpha(2 * SECOND, SECOND), Fade::Whole);

    assert!(pane.fade(2 * SECOND));
    assert!(!pane.fade(3 * SECOND), "and it begins once");
    assert!(!pane.faded(2 * SECOND + 199 * MILLISECOND, 200 * MILLISECOND));
    assert!(pane.faded(2 * SECOND + 200 * MILLISECOND, 200 * MILLISECOND));
    assert_eq!(
        pane.scene_alpha(2 * SECOND + 50 * MILLISECOND, 200 * MILLISECOND),
        Fade::Through {
            passed: 50 * MILLISECOND,
            over: 200 * MILLISECOND
        }
    );
    assert_eq!(pane.scene_alpha(2 * SECOND, 0), Fade::Over);

    assert!(pane.filled());
    assert!(!pane.filled() && !pane.has_scene());
}

#[test]
fn a_pane_is_told_which_process_it_waits_for() {
    let mut pane = loading("kitty", None, slot(), "window.qml".to_owned(), None, 0);
    assert!(!pane.awaits(&[9]));
    pane.expect(9);
    assert!(pane.awaits(&[3, 9]));
    assert_eq!(pane.waited(5 * SECOND), 5 * SECOND);
    if let Content::Loading { source, .. } = pane.content() {
        assert_eq!(source, "window.qml");
    }
    pane.adopt(1);
    pane.expect(10);
    assert!(!pane.awaits(&[10]), "it has its window");
}

#[test]
fn a_pane_leaves_in_three_ways() {
    let mut pane = kitty(None);
    assert!(!pane.leaving());
    pane.begin_closing(SECOND);
    assert!(pane.leaving());
    pane.stop_closing();
    pane.mark_asked(SECOND);
    assert!(pane.leaving());
    pane.forget_asked();
    pane.leave(SECOND);
    assert!(pane.leaving());
    assert!(!pane.has_scene() && pane.client().is_none());

    assert!(!pane.answered());
    pane.mark_answered();
    assert!(pane.answered());
    pane.settled_answer();
    assert!(!pane.answered());
}

#[test]
fn what_a_pane_holds_can_be_changed_through_it() {
    let mut pane = kitty(Some("a scene"));
    if let Some(scene) = pane.scene_mut() {
        *scene = "another";
    }
    pane.adopt(3);
    assert!(matches!(
        pane.content(),
        Content::Client {
            window: 3,
            scene: Some("another"),
            faded: None
        }
    ));
    pane.set_frame(Frame::Styled("thin"));
    if let Some(border) = pane.decoration_mut() {
        *border = "thick";
    }
    assert_eq!(pane.decoration(), Some(&"thick"));
    assert!(pane.drawn_mut().mark_shown());
    assert!(pane.drawn().shown);
    assert_eq!(pane.scratch_mut().kept.count(), 0);
}

#[test]
fn the_topmost_pane_of_a_family_gets_the_window() {
    let mut panes: Panes<Plain> = Panes::default();
    let mut ids = fresh();
    let mut open = |pid| {
        panes.open(Pane::loading(
            &mut ids,
            "kitty",
            pid,
            slot(),
            String::new(),
            None,
            0,
        ))
    };
    let _first = open(Some(1));
    let second = open(Some(1));
    let _third = open(Some(2));
    let _nobody = open(None);
    assert_eq!(panes.awaiting(&[7, 1]), Some(second));
    assert_eq!(panes.awaiting(&[8]), None);
}

fn at(x: i32) -> Rect {
    Rect::new(x, 0, 100, 100)
}

#[test]
fn panes_follow_the_stack() {
    let mut panes: Panes<Plain> = Panes::default();
    let mut ids = fresh();
    let a = panes.mapped(&mut ids, 1, at(0), 0);
    let b = panes.mapped(&mut ids, 2, at(10), 0);
    assert_eq!(panes.mapped(&mut ids, 1, at(99), 5), a, "it has one already");
    let waiting = panes.open(Pane::loading(
        &mut ids,
        "kitty",
        None,
        at(20),
        String::new(),
        None,
        0,
    ));

    assert!(panes.sync(&mut ids, &[(2, at(30)), (1, at(40)), (3, at(50))], SECOND));
    let order: Vec<PaneId> = panes.all().iter().map(Pane::id).collect();
    assert_eq!(order[0], b, "the stack turned the two round");
    assert_eq!(order[1], a);
    assert_eq!(order[3], waiting, "and what waits is on top");
    let new = panes.of(3).map(Pane::id);
    assert_eq!(new, Some(order[2]));
    assert!(![a, b, waiting].contains(&order[2]));
    assert_eq!(panes.of(2).map(Pane::slot), Some(at(30)));
    assert_eq!(panes.id_of(1), Some(a));

    assert!(
        !panes.sync(&mut ids, &[(2, at(30)), (1, at(40)), (3, at(50))], 2 * SECOND),
        "nothing came, nothing went, nothing changed places"
    );

    let flat = Rect::new(7, 7, 0, 100);
    assert!(panes.sync(&mut ids, &[(1, flat)], 3 * SECOND));
    assert_eq!(panes.len(), 2, "two windows went");
    assert_eq!(
        panes.of(1).map(Pane::slot),
        Some(at(40)),
        "a window with no size says nothing about its pane"
    );
    assert!(panes.of(2).is_none() && panes.get(b).is_none());

    assert!(panes.remove(waiting));
    assert!(!panes.remove(waiting));
}

#[test]
fn a_scene_is_looked_for_where_it_was_named() {
    assert!(matches!(
        loading_source(Some("mine"), Some("theirs"), None),
        Source::Named(name) if name == "mine"
    ));
    assert!(matches!(
        loading_source(None, Some("mine.qml"), None),
        Source::Path(path) if path == "mine.qml"
    ));
    assert!(matches!(
        loading_source(None, Some("~/scenes/mine.qml"), Some("/home/lily")),
        Source::Path(path) if path == "/home/lily/scenes/mine.qml"
    ));
    let named = || loading_source(None, Some("plain"), None);
    assert_eq!(
        scene_file(named(), Some("/home/lily/qml"), true, "/usr/qml"),
        "/home/lily/qml/loading/plain.qml"
    );
    assert_eq!(
        scene_file(named(), None, true, "/usr/qml"),
        "/usr/qml/loading/plain.qml"
    );
    assert_eq!(shipped("/usr/qml/", "window"), "/usr/qml/loading/window.qml");
    assert_eq!(expand("~/a", None), "~/a");
    assert_eq!(expand("~", Some("/home/lily")), "~");
    assert_eq!(expand("/a/~/b", Some("/home/lily")), "/a/~/b");
    assert_eq!(join("", "a"), "a");
    assert_eq!(join("/a", "/b"), "/b");
}
