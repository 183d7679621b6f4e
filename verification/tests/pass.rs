//! Which effects are run, and what of a masked window is opaque.

use solium::geometry::{Point, Rect, Size};
use solium::pass::{
    covers, needs_pass, placed, refused, runnable, Effect, Inputs, Programs, Sides,
};
use solium::render::{client_pass, Masking};

/// A radius for each corner, in pixels.
#[derive(Clone, Copy, Debug)]
struct Corners {
    top_left: f64,
    top_right: f64,
    bottom_left: f64,
    bottom_right: f64,
}

impl Corners {
    fn bits(self) -> solium::pass::Corners {
        solium::pass::Corners {
            top_left: self.top_left.to_bits(),
            top_right: self.top_right.to_bits(),
            bottom_left: self.bottom_left.to_bits(),
            bottom_right: self.bottom_right.to_bits(),
        }
    }
}

fn all(radius: f64) -> Corners {
    Corners {
        top_left: radius,
        top_right: radius,
        bottom_left: radius,
        bottom_right: radius,
    }
}

/// The effect that rounds a window's corners.
fn rounded(radii: Corners) -> Effect {
    Effect {
        inputs: Inputs::SelfTexture,
        none: [
            radii.top_left,
            radii.top_right,
            radii.bottom_left,
            radii.bottom_right,
        ]
        .iter()
        .all(|radius| *radius == 0.0),
        radii: radii.bits(),
    }
}

/// A side in whole pixels: every one it touches.
fn whole(side: f64) -> i32 {
    side.ceil() as i32
}

fn opaque_inside(rect: Rect, (top, right, bottom, left): (f64, f64, f64, f64)) -> Rect {
    solium::pass::opaque_inside(
        rect,
        Sides {
            top: whole(top),
            right: whole(right),
            bottom: whole(bottom),
            left: whole(left),
        },
    )
}

/// What of a window is opaque, with its corners as they land on screen.
fn opaque_of(dst: Rect, texture: Size, radii: Corners, alpha: f32, capture: bool) -> Option<Rect> {
    let ratio = |drawn: i32, real: i32| {
        if solium::render::ratio(drawn > 0, real) {
            f64::from(drawn) / f64::from(real)
        } else {
            1.0
        }
    };
    let widen = ratio(dst.size.w, texture.w).max(ratio(dst.size.h, texture.h));
    let side = |one: f64, other: f64| whole(one.max(other) * widen);
    solium::pass::opaque_of(
        dst,
        Sides {
            top: side(radii.top_left, radii.top_right),
            right: side(radii.top_right, radii.bottom_right),
            bottom: side(radii.bottom_left, radii.bottom_right),
            left: side(radii.top_left, radii.bottom_left),
        },
        radii.bits(),
        alpha.to_bits(),
        capture,
    )
}

fn empty(rect: Rect) -> bool {
    rect.size.w == 0 || rect.size.h == 0
}

#[test]
fn a_pane_with_no_effects_needs_no_pass() {
    assert_eq!(needs_pass(&[]), None);
}

#[test]
fn an_effect_reading_self_needs_a_pass() {
    let wanted = rounded(all(10.0));
    assert_eq!(needs_pass(&[wanted]), Some(wanted));
}

#[test]
fn a_none_effect_needs_no_pass() {
    assert_eq!(needs_pass(&[rounded(all(0.0))]), None);
}

#[test]
fn a_none_effect_does_not_hide_the_one_behind_it() {
    let wanted = rounded(all(8.0));
    assert_eq!(
        needs_pass(&[rounded(all(0.0)), wanted]),
        Some(wanted)
    );
}

#[test]
fn of_two_effects_that_both_want_a_pass_the_first_wins() {
    let first = rounded(all(4.0));
    let second = rounded(all(12.0));
    assert_eq!(needs_pass(&[first, second]), Some(first));
}

#[test]
fn an_effect_reading_a_backdrop_cannot_be_run() {
    assert!(!runnable(Inputs::Backdrop));
    assert!(runnable(Inputs::SelfTexture));
    assert!(
        runnable(Inputs::Nothing),
        "an effect that reads nothing is an ordinary element, not a refusal"
    );
}

#[test]
fn the_effects_this_build_can_make_are_not_refused() {
    assert_eq!(refused(&[]), None);
    assert_eq!(refused(&[rounded(all(12.0))]), None);
    assert_eq!(refused(&[rounded(all(0.0))]), None);
}

#[test]
fn an_effect_that_cannot_be_run_is_named_once_and_not_every_frame() {
    let mut programs: Programs<u32> = Programs::default();
    let effect = rounded(all(12.0));
    assert!(programs.refuse(effect), "the first refusal says so");
    assert!(!programs.refuse(effect), "and the second says nothing");
    assert!(
        !programs.refuse(rounded(all(4.0))),
        "nor a different one"
    );
}

#[test]
fn a_rounded_rect_is_opaque_only_inside_its_corners() {
    let rect = Rect::new(100, 100, 300, 200);
    let opaque = opaque_inside(rect, (20.0, 20.0, 20.0, 20.0));
    assert_eq!(opaque.loc.x, 120);
    assert_eq!(opaque.loc.y, 120);
    assert_eq!(opaque.size.w, 260);
    assert_eq!(opaque.size.h, 160);
}

#[test]
fn a_side_with_no_cut_corner_is_not_inset() {
    let rect = Rect::new(100, 100, 300, 200);
    let inside = opaque_inside(rect, (0.0, 20.0, 20.0, 12.0));
    assert_eq!(inside.loc.y, 100, "nothing is cut along the top");
    assert_eq!(
        inside.loc.x, 112,
        "the left side is inset by its larger corner"
    );
    assert_eq!(inside.size.h, 180, "only the bottom is taken");
    assert_eq!(inside.size.w, 268);
}

#[test]
fn a_radius_bigger_than_the_window_claims_nothing() {
    let rect = Rect::new(0, 0, 30, 30);
    let opaque = opaque_inside(rect, (40.0, 40.0, 40.0, 40.0));
    assert_eq!(opaque.size.w, 0);
    assert_eq!(opaque.size.h, 0);
    assert_eq!(opaque.loc.x, 40);
    assert_eq!(opaque.loc.y, 40);
    let one_side = opaque_inside(rect, (40.0, 0.0, 0.0, 0.0));
    assert_eq!(one_side.size.h, 0, "a top deeper than the window");
    assert_eq!(one_side.size.w, 30, "and the other axis untouched by it");
}

#[test]
fn a_fractional_radius_insets_by_the_whole_pixel_it_touches() {
    let rect = Rect::new(0, 0, 100, 100);
    let opaque = opaque_inside(rect, (16.25, 16.25, 16.25, 16.25));
    assert_eq!(opaque.loc.x, 17, "16.25 has to inset 17, not 16");
    assert_eq!(opaque.size.w, 66);
    let mixed = opaque_inside(rect, (16.25, 4.0, 0.25, 8.75));
    assert_eq!(mixed.loc.y, 17);
    assert_eq!(mixed.loc.x, 9, "8.75 has to inset 9");
    assert_eq!(mixed.size.h, 82, "17 off the top and 1 off the bottom");
    assert_eq!(mixed.size.w, 87, "9 off the left and 4 off the right");
}

#[test]
fn an_absurd_radius_does_not_overflow_the_inset() {
    let rect = Rect::new(0, 0, 100, 100);
    assert!(empty(opaque_inside(rect, (1e30, 1e30, 1e30, 1e30))));
    assert!(empty(
        opaque_inside(
            rect,
            (f64::INFINITY, f64::INFINITY, f64::INFINITY, f64::INFINITY)
        )
    ));
    assert!(
        empty(opaque_inside(rect, (1e30, 0.0, 1e30, 0.0))),
        "one axis saturated at both ends is the sum that overflows"
    );
}

#[test]
fn a_side_below_nothing_does_not_claim_past_the_window() {
    let window = Rect::new(10, 20, 100, 80);
    assert_eq!(opaque_inside(window, (-5.0, -0.5, -9.0, -1e12)), window);
    assert_eq!(
        opaque_inside(window, (-5.0, 10.0, 20.0, -1.0)),
        Rect::new(10, 20, 90, 60)
    );
}

#[test]
fn the_claim_is_relative_to_the_element_not_to_the_output() {
    let texture = Size::new(300, 200);
    let at_origin = Rect { loc: Point::new(0, 0), size: texture };
    let far_away = Rect { loc: Point::new(1920, 1080), size: texture };
    assert_eq!(
        opaque_of(at_origin, texture, all(20.0), 1.0, true),
        opaque_of(far_away, texture, all(20.0), 1.0, true),
        "where the window is on screen cannot change what it claims"
    );
    assert_eq!(
        opaque_of(far_away, texture, all(20.0), 1.0, true),
        Some(Rect::new(20, 20, 260, 160)),
    );
}

#[test]
fn the_inset_is_the_radius_as_it_lands_on_screen() {
    let texture = Size::new(400, 400);
    let doubled = Rect::new(0, 0, 800, 800);
    assert_eq!(
        opaque_of(doubled, texture, all(20.0), 1.0, true),
        Some(Rect::new(40, 40, 720, 720)),
        "drawn at twice its size, the corner is twice as big"
    );
    let halved = Rect::new(0, 0, 200, 200);
    assert_eq!(
        opaque_of(halved, texture, all(20.0), 1.0, true),
        Some(Rect::new(10, 10, 180, 180)),
        "and half as big drawn half the size"
    );
}

#[test]
fn a_window_stretched_on_one_axis_insets_by_the_wider_of_the_two() {
    let wide = Size::new(400, 200);
    let stretched = Rect::new(0, 0, 800, 200);
    assert_eq!(
        opaque_of(stretched, wide, all(20.0), 1.0, true),
        Some(Rect::new(40, 40, 720, 120)),
        "the horizontal arc doubled, so 40 is the inset on every side"
    );
    let tall = Size::new(200, 400);
    let stood_up = Rect::new(0, 0, 200, 800);
    assert_eq!(
        opaque_of(stood_up, tall, all(20.0), 1.0, true),
        Some(Rect::new(40, 40, 120, 720)),
        "the vertical arc doubled, and the inset has to follow that axis too"
    );
}

#[test]
fn each_side_is_inset_by_the_larger_of_the_two_corners_touching_it() {
    let texture = Size::new(300, 200);
    let dst = Rect { loc: Point::new(0, 0), size: texture };
    let radii = Corners {
        top_left: 6.0,
        top_right: 20.0,
        bottom_left: 30.0,
        bottom_right: 12.0,
    };
    assert_eq!(
        opaque_of(dst, texture, radii, 1.0, true),
        Some(Rect::new(30, 20, 250, 150)),
        "the left side is cut by its bottom corner and the top by its \
         right one, so neither is the corner sharing its name"
    );
}

#[test]
fn a_fading_window_is_opaque_nowhere() {
    let texture = Size::new(300, 200);
    let dst = Rect { loc: Point::new(0, 0), size: texture };
    assert_eq!(opaque_of(dst, texture, all(20.0), 0.5, true), None);
    assert_eq!(
        opaque_of(dst, texture, all(20.0), 0.999, true),
        None
    );
    assert!(
        opaque_of(dst, texture, all(20.0), 1.0, true).is_some(),
        "and a window that is not fading still claims its middle"
    );
}

#[test]
fn a_capture_the_client_left_translucent_is_opaque_nowhere() {
    let texture = Size::new(300, 200);
    let dst = Rect { loc: Point::new(0, 0), size: texture };
    assert_eq!(
        opaque_of(dst, texture, all(20.0), 1.0, false),
        None
    );
    assert!(opaque_of(dst, texture, all(20.0), 1.0, true).is_some());
}

#[test]
fn a_radius_under_half_a_pixel_is_opaque_nowhere() {
    let texture = Size::new(300, 200);
    let dst = Rect { loc: Point::new(0, 0), size: texture };
    assert_eq!(opaque_of(dst, texture, all(0.4), 1.0, true), None);
    assert_eq!(
        opaque_of(dst, texture, all(f64::NAN), 1.0, true),
        None,
        "NaN compares false against every bound and must not fall through \
         to an inset of zero, which would claim the whole rectangle"
    );
    assert_eq!(opaque_of(dst, texture, all(0.49), 1.0, true), None);
    assert!(opaque_of(dst, texture, all(0.5), 1.0, true).is_some());
}

#[test]
fn a_single_square_corner_is_opaque_nowhere() {
    let texture = Size::new(300, 200);
    let dst = Rect { loc: Point::new(0, 0), size: texture };
    for square in [
        Corners {
            top_left: 0.0,
            ..all(20.0)
        },
        Corners {
            top_right: 0.0,
            ..all(20.0)
        },
        Corners {
            bottom_left: 0.0,
            ..all(20.0)
        },
        Corners {
            bottom_right: 0.0,
            ..all(20.0)
        },
    ] {
        assert_eq!(
            opaque_of(dst, texture, square, 1.0, true),
            None,
            "{square:?} leaves one quadrant at 50% alpha, and a region \
             claimed opaque is drawn with blending disabled"
        );
    }
    assert!(
        opaque_of(dst, texture, all(20.0), 1.0, true).is_some(),
        "and four cut corners still claim the middle -- without this the \
         guard could refuse everything and pass"
    );
}

#[test]
fn an_elements_opaque_regions_are_moved_to_where_it_was_drawn() {
    let size = Size::new(100, 100);
    let half = Rect::new(0, 0, 100, 50);
    assert_eq!(
        placed(Point::new(10, 20), &[half]),
        vec![Rect::new(10, 20, 100, 50)],
        "the location moves and the size does not"
    );
    assert!(
        covers(
            size,
            &[placed(Point::new(0, 0), &[half]), placed(Point::new(0, 50), &[half])].concat()
        ),
        "a top half and a bottom half cover the capture once each is put \
         where its element was drawn"
    );
    assert!(
        !covers(size, &[half, half]),
        "and do not if the second is left where it says it is"
    );
}

#[test]
fn a_capture_is_opaque_only_when_the_client_covered_all_of_it() {
    let size = Size::new(100, 100);
    let whole = Rect { loc: Point::new(0, 0), size: size };
    assert!(covers(size, &[whole]));
    assert!(!covers(size, &[]), "a client that declared nothing opaque");
    assert!(
        covers(
            size,
            &[
                Rect::new(0, 0, 100, 60),
                Rect::new(0, 40, 100, 60),
            ]
        ),
        "two overlapping halves that do cover it"
    );
    assert!(
        !covers(
            size,
            &[
                Rect::new(0, 0, 100, 60),
                Rect::new(0, 10, 100, 60),
            ]
        ),
        "and two that overlap enough to add up to it without covering it"
    );
    assert!(
        !covers(Size::new(0, 0), &[whole]),
        "a capture with no pixels is not opaque, whatever is claimed of it"
    );
}

#[test]
fn an_opacity_below_nothing_is_a_fade_and_one_past_whole_is_not() {
    let texture = Size::new(300, 200);
    let dst = Rect::from_size(texture);
    for fading in [-1.0, -0.0, 0.0, f32::NEG_INFINITY, 0.999_999_9] {
        assert_eq!(opaque_of(dst, texture, all(20.0), fading, true), None);
    }
    for whole in [1.0, 1.5, f32::INFINITY, f32::NAN, -f32::NAN] {
        assert!(opaque_of(dst, texture, all(20.0), whole, true).is_some());
    }
    assert_eq!(opaque_of(dst, texture, all(-20.0), 1.0, true), None);
    assert_eq!(
        opaque_of(dst, texture, all(f64::INFINITY), 1.0, true),
        None,
        "and corners without end leave nothing between them"
    );
}

fn backdrop() -> Effect {
    Effect {
        inputs: Inputs::Backdrop,
        ..rounded(all(4.0))
    }
}

#[test]
fn an_effect_that_reads_a_backdrop_is_refused_and_the_one_beside_it_run() {
    let mut programs: Programs<u32> = Programs::default();
    let mask = rounded(all(4.0));
    assert_eq!(refused(&[mask, backdrop()]), Some(backdrop()));
    assert_eq!(
        client_pass(&[backdrop(), mask], &mut programs),
        Masking::Run(mask)
    );
    assert_eq!(
        client_pass(&[backdrop()], &mut programs),
        Masking::Nothing {
            complain: Some(backdrop())
        }
    );
    assert_eq!(
        client_pass(&[backdrop()], &mut programs),
        Masking::Nothing { complain: None }
    );
    assert_eq!(
        client_pass(&[], &mut programs),
        Masking::Nothing { complain: None }
    );
}

#[test]
fn a_program_is_made_once_and_not_tried_again_where_it_could_not_be() {
    let mut programs: Programs<u32> = Programs::default();
    assert_eq!(programs.rounded(|| Ok::<u32, ()>(5)), Some(&5));
    assert_eq!(programs.rounded(|| Ok::<u32, ()>(6)), Some(&5));

    let mut broken: Programs<u32> = Programs::default();
    assert_eq!(broken.rounded(|| Err("it does not compile")), None);
    assert_eq!(broken.rounded(|| Ok::<u32, &str>(6)), None);
}

#[test]
fn what_is_left_over_is_found_wherever_it_is() {
    let size = Size::new(3, 3);
    let frame = [
        Rect::new(0, 0, 3, 1),
        Rect::new(0, 0, 1, 3),
        Rect::new(2, 0, 9, 9),
        Rect::new(-5, 2, 9, 9),
    ];
    assert!(!covers(size, &frame), "the middle");
    assert!(covers(
        size,
        &[&frame[..], &[Rect::new(1, 1, 1, 1)]].concat()
    ));
    assert!(!covers(
        size,
        &[&frame[..], &[Rect::new(1, 1, 0, 5)]].concat()
    ));
    assert!(covers(size, &[Rect::new(-100, -100, i32::MAX, i32::MAX)]));
}
