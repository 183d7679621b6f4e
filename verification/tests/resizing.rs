//! A live edge drag: what the client is told, when it is over, and who wins.

use solium::geometry::{Rect, Size};
use solium::resizing::{
    capped, moved_edges, rounds, Fill, Hold, ResizeEdge, Settings, Settle, PATIENCE, TELL_EVERY,
};

/// The factor a client's buffer is scaled by: how large it is drawn over how
/// large it is, and no more than one where the fill keeps its size.
fn factor(fill: Option<Fill>, drawn: (f64, f64), real: Size) -> (f64, f64) {
    let along = |drawn: f64, real: i32| {
        let ratio = if solium::render::ratio(drawn > 0.0, real) {
            drawn / f64::from(real)
        } else {
            1.0
        };
        if capped(fill) {
            ratio.min(1.0)
        } else {
            ratio
        }
    };
    (along(drawn.0, real.w), along(drawn.1, real.h))
}

fn whole(size: Size) -> (f64, f64) {
    (f64::from(size.w), f64::from(size.h))
}

fn size(w: i32, h: i32) -> Size {
    Size::new(w, h)
}

fn rect(x: i32, y: i32, w: i32, h: i32) -> Rect {
    Rect::new(x, y, w, h)
}

const fn ms(millis: u128) -> u128 {
    millis * 1_000_000
}

fn want(w: i32, h: i32) -> Rect {
    rect(100, 100, w, h)
}

fn dragging(
    edges: ResizeEdge,
    client: Size,
    asked: Rect,
    now: u128,
) -> Hold {
    Hold::new(edges, client, asked, now, None)
}

#[test]
fn the_dragged_edge_moves_first_and_the_other_one_does_not_move_at_all() {
    let began = rect(100, 100, 400, 300);
    let wanted = rect(150, 140, 350, 260);
    let client = size(400, 300);

    let pane = wanted;
    assert_eq!(
        (pane.loc.x + pane.size.w, pane.loc.y + pane.size.h),
        (began.loc.x + began.size.w, began.loc.y + began.size.h),
        "the bottom-right edge is not being dragged and must not move"
    );

    let behind = Rect { loc: wanted.loc, size: client };
    assert_eq!(
        (
            behind.loc.x + behind.size.w,
            behind.loc.y + behind.size.h
        ),
        (550, 440),
        "moving the origin at once with the size still old moves the \
         bottom-right corner by the drag's whole delta"
    );
    assert_ne!(
        (
            behind.loc.x + behind.size.w,
            behind.loc.y + behind.size.h
        ),
        (began.loc.x + began.size.w, began.loc.y + began.size.h),
    );

    let (across, down) = factor(Some(Fill::Stretch), whole(pane.size), client);
    assert!((across - 350.0 / 400.0).abs() < f64::EPSILON);
    assert!((down - 260.0 / 300.0).abs() < f64::EPSILON);
}

#[test]
fn the_stretch_ends_when_the_client_commits_the_size_it_was_asked_for() {
    let mut hold = dragging(
        ResizeEdge::BottomRight,
        size(400, 300),
        want(500, 380),
        ms(0),
    );
    assert_eq!(hold.settle(size(400, 300), ms(8)), Settle::Waiting);
    assert_eq!(
        hold.release(want(520, 400), size(400, 300), ms(200)),
        want(520, 400)
    );
    assert_eq!(hold.settle(size(400, 300), ms(216)), Settle::Waiting);
    assert_eq!(hold.settle(size(520, 400), ms(280)), Settle::Done);
    let (across, down) = factor(Some(Fill::Stretch), (520.0, 400.0), size(520, 400));
    assert!((across - 1.0).abs() < f64::EPSILON);
    assert!((down - 1.0).abs() < f64::EPSILON);
}

#[test]
fn a_refused_size_stops_the_stretch_instead_of_stretching_for_ever() {
    let mut hold = dragging(ResizeEdge::Left, size(800, 600), want(300, 600), ms(0));
    assert_eq!(
        hold.fill(Fill::Stretch),
        Fill::Stretch,
        "nothing refused yet"
    );

    assert_eq!(hold.settle(size(450, 600), ms(120)), Settle::Waiting);
    assert_eq!(
        hold.fill(Fill::Stretch),
        Fill::Hold,
        "a client that will not reach the size it was offered would never \
         bring the factor back to 1"
    );
    let (across, _) = factor(
        Some(hold.fill(Fill::Stretch)),
        (300.0, 600.0),
        size(450, 600),
    );
    assert!(across < 1.0);
    let (wider, _) = factor(Some(Fill::Hold), (900.0, 600.0), size(450, 600));
    assert!((wider - 1.0).abs() < f64::EPSILON);

    let slot = rect(200, 100, 300, 600);
    assert_eq!(
        hold.release(want(300, 600), size(450, 600), ms(300)),
        want(300, 600)
    );
    let Settle::Adopt(taken) = hold.settle(size(450, 600), ms(320)) else {
        panic!("a client that answered with a size of its own must be adopted");
    };
    assert_eq!(taken, size(450, 600));
    let landed = hold.anchored(slot, taken);
    assert_eq!(
        landed.loc.x + landed.size.w,
        slot.loc.x + slot.size.w,
        "a left drag gives the refused pixels back on the left; the right \
         edge is the one nobody touched"
    );
    assert_eq!(landed, rect(50, 100, 450, 600));
}

#[test]
fn a_refusal_lifts_on_an_answer_and_not_on_a_new_offer() {
    let mut hold = dragging(ResizeEdge::Left, size(800, 600), want(300, 600), ms(0));
    hold.settle(size(450, 600), ms(100));
    assert_eq!(hold.fill(Fill::Stretch), Fill::Hold);
    assert_eq!(
        hold.dragged(want(700, 600), size(450, 600), ms(200)),
        Some(want(700, 600))
    );
    assert_eq!(
        hold.fill(Fill::Stretch),
        Fill::Hold,
        "the client has not answered yet; what is on screen is still its \
         own size, and 450 smeared across 700 is not an improvement"
    );
    hold.settle(size(700, 600), ms(300));
    assert_eq!(hold.fill(Fill::Stretch), Fill::Stretch);
    hold.release(want(760, 600), size(700, 600), ms(400));
    assert_eq!(
        hold.settle(size(700, 600), ms(420)),
        Settle::Waiting,
        "a client that is keeping up must be given its round trip, or the \
         last stretch of every drag is thrown away"
    );
    assert_eq!(hold.settle(size(760, 600), ms(450)), Settle::Done);
}

#[test]
fn a_client_that_never_answers_is_given_up_on_at_the_deadline() {
    let mut hold = dragging(ResizeEdge::Bottom, size(400, 300), want(400, 420), ms(0));
    hold.release(want(400, 420), size(400, 300), ms(500));
    assert_eq!(hold.settle(size(400, 300), ms(600)), Settle::Waiting);
    assert_eq!(
        hold.settle(size(400, 300), ms(500) + PATIENCE),
        Settle::Adopt(size(400, 300)),
        "a hold nothing ends holds the space and the slot apart for ever"
    );

    let mut same = dragging(ResizeEdge::Bottom, size(400, 300), want(400, 420), ms(0));
    same.release(want(400, 300), size(400, 300), ms(500));
    assert_eq!(
        same.settle(size(400, 300), ms(501)),
        Settle::Done,
        "asked for the size it already is, so there is nothing to wait for"
    );
}

#[test]
fn the_client_is_not_asked_more_often_than_the_throttle_allows() {
    let mut hold = dragging(ResizeEdge::Right, size(400, 300), want(410, 300), ms(0));
    assert_eq!(hold.dragged(want(420, 300), size(400, 300), ms(16)), None);
    assert_eq!(hold.dragged(want(430, 300), size(400, 300), ms(32)), None);
    assert_eq!(hold.dragged(want(460, 300), size(400, 300), ms(99)), None);
    assert_eq!(
        hold.dragged(want(470, 300), size(400, 300), ms(0) + TELL_EVERY),
        Some(want(470, 300))
    );
    assert_eq!(hold.dragged(want(480, 300), size(400, 300), ms(120)), None);
}

#[test]
fn a_placement_that_is_not_the_drags_is_not_throttled_by_it() {
    let mut hold = dragging(ResizeEdge::Right, size(400, 300), want(410, 300), ms(0));
    assert_eq!(
        hold.dragged(want(420, 300), size(400, 300), ms(16)),
        None,
        "the control: the same frame, asked for by the drag, is throttled"
    );
    assert_eq!(
        hold.placed(want(260, 180), size(400, 300), ms(16)),
        Some(want(260, 180))
    );
    assert_eq!(
        hold.asked(),
        want(260, 180),
        "the hold has to know what the client was last told, or it waits \
         for an answer to a size it never offered"
    );
    assert_eq!(hold.placed(want(260, 180), size(400, 300), ms(32)), None);
}

#[test]
fn a_pane_that_only_moved_is_still_told_where_it_went() {
    let mut hold = dragging(ResizeEdge::Right, size(400, 300), want(400, 300), ms(0));
    let sideways = rect(140, 100, 400, 300);
    assert_eq!(
        hold.dragged(sideways, size(400, 300), TELL_EVERY),
        Some(sideways),
        "the same size at a different origin is a real change"
    );
    assert_eq!(
        hold.dragged(sideways, size(400, 300), TELL_EVERY * 2),
        None,
        "and the same rectangle twice is not"
    );
}

#[test]
fn a_cell_grid_answer_keeps_the_stretch_and_still_ends_the_gesture() {
    let mut hold = dragging(ResizeEdge::Right, size(400, 300), want(300, 200), ms(0));
    assert_eq!(hold.settle(size(294, 190), ms(50)), Settle::Waiting);
    assert!(!hold.refused());
    assert_eq!(
        hold.fill(Fill::Stretch),
        Fill::Stretch,
        "a rounding is not the refusal `declined` exists to catch"
    );
    hold.release(want(300, 200), size(294, 190), ms(200));
    assert_eq!(
        hold.settle(size(294, 190), ms(210)),
        Settle::Adopt(size(294, 190)),
        "the client's own size wins at the end whatever the fill did in \
         the middle"
    );

    let mut firefox = dragging(ResizeEdge::Left, size(800, 600), want(300, 600), ms(0));
    firefox.settle(size(450, 600), ms(50));
    assert!(firefox.refused());
    assert_eq!(firefox.fill(Fill::Stretch), Fill::Hold);

    let refused = |asked: (i32, i32), given: (i32, i32)| {
        let mut hold = dragging(
            ResizeEdge::Right,
            size(asked.0, asked.1),
            want(asked.0, asked.1),
            ms(0),
        );
        hold.settle(size(given.0, given.1), ms(50));
        hold.refused()
    };
    assert!(!refused((1000, 1000), (950, 1000)), "five percent");
    assert!(refused((1000, 1000), (949, 1000)), "and past it");
    assert!(
        !refused((300, 200), (300, 180)),
        "one character cell is not a refusal"
    );
}

#[test]
fn a_client_that_answers_once_and_then_says_nothing_stops_stretching() {
    let mut hold = dragging(ResizeEdge::Left, size(850, 600), want(790, 600), ms(0));
    assert_eq!(hold.settle(size(800, 600), ms(20)), Settle::Waiting);
    assert!(
        !hold.refused(),
        "ten pixels off 790 is inside `ROUNDING`, and about the ask it was \
         answering that is the right answer"
    );

    let mut at = ms(20);
    for width in [700, 600, 500, 400] {
        at += TELL_EVERY;
        assert_eq!(
            hold.dragged(want(width, 600), size(800, 600), at),
            Some(want(width, 600)),
            "the ask keeps moving even though the answer does not"
        );
        assert_eq!(hold.settle(size(800, 600), at + ms(16)), Settle::Waiting);
    }
    assert!(
        hold.refused(),
        "the pane is drawing 400 against a client stuck at 800, and a \
         client that has been told four times and said nothing is not \
         tracking the ask by four hundred pixels"
    );
    assert_eq!(
        hold.fill(Fill::Stretch),
        Fill::Hold,
        "the guard is that a refusing client must not be stretched, and \
         a guard that lasts one frame of a drag is not one"
    );

    let mut hung = dragging(ResizeEdge::Right, size(400, 300), want(420, 300), ms(0));
    assert_eq!(hung.settle(size(412, 292), ms(10)), Settle::Waiting);
    assert!(!hung.refused(), "eight pixels is a cell, not a refusal");
    for (width, at) in [(620, TELL_EVERY), (820, TELL_EVERY * 2)] {
        assert_eq!(
            hung.dragged(want(width, 300), size(412, 292), at),
            Some(want(width, 300))
        );
    }
    let (across, _) = factor(
        Some(hung.fill(Fill::Stretch)),
        (820.0, 300.0),
        size(412, 292),
    );
    assert!(
        (across - 1.0).abs() < f64::EPSILON,
        "a buffer drawn at twice its own size for the rest of a gesture is \
         the blur this module was written to prevent; got {across}"
    );
}

#[test]
fn a_terminal_that_is_still_answering_keeps_the_stretch_across_a_configure() {
    let mut hold = dragging(ResizeEdge::Right, size(400, 300), want(420, 300), ms(0));
    assert_eq!(hold.settle(size(412, 292), ms(10)), Settle::Waiting);
    assert!(!hold.refused());

    assert_eq!(
        hold.dragged(want(520, 300), size(412, 292), TELL_EVERY),
        Some(want(520, 300))
    );
    assert!(
        !hold.refused(),
        "one configure in flight is what a client that is keeping up looks \
         like on the frame it is sent: the hundred pixels between the ask \
         and the answer are the throttle's, not the client's"
    );
    assert_eq!(hold.fill(Fill::Stretch), Fill::Stretch);

    assert_eq!(
        hold.settle(size(512, 292), TELL_EVERY + ms(10)),
        Settle::Waiting
    );
    assert!(!hold.refused());
    assert_eq!(hold.fill(Fill::Stretch), Fill::Stretch);
}

#[test]
fn letting_go_always_tells_the_client_where_the_drag_ended() {
    let mut hold = dragging(ResizeEdge::Right, size(400, 300), want(410, 300), ms(0));
    assert_eq!(hold.dragged(want(470, 300), size(400, 300), ms(16)), None);
    assert_eq!(
        hold.release(want(473, 300), size(400, 300), ms(20)),
        want(473, 300),
        "the last few pixels of a drag are lost if the throttle gets the \
         final word"
    );
}

#[test]
fn a_motion_settled_after_the_release_still_reaches_the_client() {
    let mut hold = dragging(ResizeEdge::Right, size(400, 300), want(400, 300), ms(0));
    assert_eq!(hold.dragged(want(460, 300), size(400, 300), ms(6)), None);
    assert_eq!(
        hold.release(want(470, 300), size(400, 300), ms(50)),
        want(470, 300)
    );
    assert_eq!(
        hold.dragged(want(474, 300), size(400, 300), ms(56)),
        Some(want(474, 300))
    );
    assert_eq!(
        hold.settle(size(474, 300), ms(120)),
        Settle::Done,
        "the client answered the size it was actually told"
    );
}

#[test]
fn a_window_that_is_not_being_dragged_is_never_clamped() {
    let (across, down) = factor(None, (1600.0, 1200.0), size(800, 600));
    assert!((across - 2.0).abs() < f64::EPSILON);
    assert!((down - 2.0).abs() < f64::EPSILON);
}

#[test]
fn a_hold_born_after_its_gesture_ended_is_still_let_go_of() {
    let mut hold = Hold::new(
        ResizeEdge::TopLeft,
        size(400, 300),
        want(380, 288),
        ms(16),
        Some(ms(12)),
    );
    assert_eq!(hold.settle(size(400, 300), ms(20)), Settle::Waiting);
    assert_eq!(
        hold.settle(size(400, 300), ms(12) + PATIENCE),
        Settle::Adopt(size(400, 300)),
        "the deadline runs from the release, and this hold was born after it"
    );

    let mut deaf = dragging(ResizeEdge::TopLeft, size(400, 300), want(380, 288), ms(16));
    assert_eq!(
        deaf.settle(size(400, 300), ms(12) + PATIENCE + ms(1000)),
        Settle::Waiting,
        "a hold that cannot observe its own release is permanent, and a \
         permanent hold is a permanently soft window"
    );
}

#[test]
fn an_adopted_size_never_collapses_the_slot_to_nothing() {
    let hold = dragging(ResizeEdge::TopLeft, size(400, 300), want(380, 288), ms(0));
    let slot = rect(200, 100, 380, 288);
    let landed = hold.anchored(slot, size(0, 0));
    assert!(
        landed.size.w > 0 && landed.size.h > 0,
        "the same floor `inner` applies, for the same reason"
    );
    assert_eq!(
        (landed.loc.x + landed.size.w, landed.loc.y + landed.size.h),
        (slot.loc.x + slot.size.w, slot.loc.y + slot.size.h),
    );
}

#[test]
fn a_hold_says_which_edges_the_picture_has_to_stay_against() {
    let pins = |edges| dragging(edges, size(400, 300), want(400, 300), ms(0)).pins();
    assert_eq!(pins(ResizeEdge::TopLeft), (true, true));
    assert_eq!(pins(ResizeEdge::BottomRight), (false, false));
    assert_eq!(pins(ResizeEdge::Left), (true, false));
    assert_eq!(pins(ResizeEdge::Top), (false, true));
    assert_eq!(pins(ResizeEdge::BottomLeft), (true, false));
    assert_eq!(pins(ResizeEdge::TopRight), (false, true));
}

#[test]
fn a_held_picture_leaves_its_slack_on_the_edge_being_dragged() {
    let drawn = (900.0, 600.0);
    let client = size(450, 600);
    let (across, _) = factor(Some(Fill::Hold), drawn, client);
    assert!((drawn.0 - f64::from(client.w) * across - 450.0).abs() < f64::EPSILON);

    let (stretched, _) = factor(Some(Fill::Stretch), drawn, client);
    assert!(
        (drawn.0 - f64::from(client.w) * stretched).abs() < f64::EPSILON,
        "a stretched buffer fills its rectangle, so anchoring it is a no-op"
    );
}

#[test]
fn a_fill_is_named_in_the_configuration_or_it_is_not_one() {
    assert_eq!(Fill::named("stretch"), Some(Fill::Stretch));
    assert_eq!(Fill::named("hold"), Some(Fill::Hold));
    assert_eq!(Fill::named("scene"), Some(Fill::Scene));
    assert_eq!(Fill::named("Stretch"), None);
    assert_eq!(Fill::named(""), None);
    assert_eq!(Fill::default(), Fill::Stretch);
}

#[test]
fn a_seams_two_panes_are_pulled_by_opposite_edges() {
    assert_eq!(
        moved_edges(rect(400, 300, 300, 400), rect(400, 300, 360, 400)),
        ResizeEdge::Right,
        "the pane under the pointer keeps the edge the pointer has"
    );
    assert_eq!(
        moved_edges(rect(700, 300, 200, 400), rect(760, 300, 140, 400)),
        ResizeEdge::Left,
        "and its neighbour across the seam has the opposite one: its right \
         edge is the far wall and has not moved at all"
    );
}

#[test]
fn a_pane_that_only_moved_has_no_edge_to_anchor_against() {
    let hold = Hold::new(
        moved_edges(rect(700, 300, 200, 400), rect(760, 300, 200, 400)),
        size(200, 400),
        want(200, 400),
        ms(0),
        None,
    );
    assert_eq!(hold.pins(), (false, false));
    assert_eq!(
        moved_edges(rect(400, 300, 300, 400), rect(400, 300, 300, 400)),
        ResizeEdge::Neither,
        "and a rectangle that did not change moved no edge either"
    );
}

#[test]
fn a_corner_names_both_of_its_axes() {
    assert_eq!(
        moved_edges(rect(400, 300, 300, 400), rect(400, 300, 360, 460)),
        ResizeEdge::BottomRight
    );
    assert_eq!(
        moved_edges(rect(700, 700, 200, 300), rect(760, 760, 140, 240)),
        ResizeEdge::TopLeft,
        "the pane diagonally opposite has both of its near edges pulled"
    );
    assert_eq!(
        moved_edges(rect(700, 300, 200, 400), rect(760, 300, 140, 460)),
        ResizeEdge::BottomLeft
    );
}

#[test]
fn a_rearmed_hold_stops_its_deadline_without_resetting_its_throttle() {
    let mut hold = Hold::new(
        ResizeEdge::Right,
        size(300, 200),
        want(320, 200),
        ms(0),
        Some(ms(0)),
    );
    assert_eq!(
        hold.settle(size(300, 200), PATIENCE + ms(10)),
        Settle::Adopt(size(300, 200)),
        "which is what the second gesture must not be handed"
    );

    let mut hold = Hold::new(
        ResizeEdge::Right,
        size(300, 200),
        want(320, 200),
        ms(0),
        Some(ms(0)),
    );
    hold.rearm(None);
    assert_eq!(
        hold.settle(size(300, 200), PATIENCE + ms(10)),
        Settle::Waiting,
        "the new gesture owns this pane now, and a gesture that is still \
         going ends nothing"
    );
    assert_eq!(
        hold.dragged(want(340, 200), size(300, 200), TELL_EVERY),
        Some(want(340, 200)),
        "and the interval still runs from when the client was last spoken \
         to, not from the handover: resetting it would cost a tenth of a \
         second of silence at the one moment a drag has just started"
    );
}

#[test]
fn a_rounding_is_a_twentieth_or_a_character_cell() {
    assert!(rounds(size(100, 100), size(124, 76)));
    assert!(!rounds(size(100, 100), size(125, 100)));
    assert!(rounds(size(1000, 1000), size(1050, 950)));
    assert!(!rounds(size(1000, 1000), size(1000, 1051)));
    assert!(rounds(size(0, 0), size(24, 24)));
}

#[test]
fn the_drag_can_change_hands_without_losing_its_bookkeeping() {
    let mut hold = dragging(ResizeEdge::Right, size(400, 300), want(410, 300), ms(0));
    assert_eq!(hold.unanswered(), 1, "the configure it was born with");
    hold.retargeted(ResizeEdge::TopLeft);
    assert_eq!(hold.pins(), (true, true));
    assert_eq!(hold.asked(), want(410, 300));
    hold.note(size(410, 300));
    assert_eq!(hold.unanswered(), 0);
    assert_eq!(Settings::default().fill, Fill::Stretch);
}
