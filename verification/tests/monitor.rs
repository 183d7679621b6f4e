//! Where monitors go, and how a configuration is read.

use solium::arrangement::{beside, Arrangement, Placement};
use solium::geometry::{Point, Rect, Size};
use solium::monitor::{
    align, automatic, mode, nearest, scaling, transform, union, Align, Scaling, Side, Transform,
    Wanted,
};

fn named(name: &str) -> Placement {
    Placement {
        name: name.to_owned(),
        at: None,
        beside: None,
        mode: Wanted::default(),
        vrr: None,
        transform: None,
        enabled: true,
        primary: false,
        scale: Scaling::default(),
    }
}

fn monitors(names: &[(&str, i32, i32)]) -> Vec<(String, Size)> {
    names
        .iter()
        .map(|(name, w, h)| ((*name).to_owned(), Size::new(*w, *h)))
        .collect()
}

fn at(name: &str, x: i32, y: i32) -> Placement {
    Placement {
        at: Some(Point::new(x, y)),
        ..named(name)
    }
}

fn beside_of(name: &str, side: Side, anchor: &str, align: Align) -> Placement {
    Placement {
        beside: Some((side, anchor.to_owned(), align)),
        ..named(name)
    }
}

#[test]
fn one_monitor_is_at_the_origin() {
    let layout = Arrangement::default().place(&monitors(&[("eDP-1", 1920, 1080)]));
    assert_eq!(layout.at, vec![Point::new(0, 0)]);
}

#[test]
fn unconfigured_monitors_go_left_to_right() {
    let layout = Arrangement::default().place(&monitors(&[
        ("DP-1", 2560, 1440),
        ("HDMI-A-1", 1920, 1080),
        ("DP-2", 1280, 1024),
    ]));
    assert_eq!(
        layout.at,
        vec![
            Point::new(0, 0),
            Point::new(2560, 0),
            Point::new(4480, 0),
        ]
    );
}

#[test]
fn a_configured_monitor_takes_its_position() {
    let arrangement = Arrangement::new(vec![at("HDMI-A-1", 0, 0), at("DP-1", 1920, 200)]);
    let layout =
        arrangement.place(&monitors(&[("DP-1", 2560, 1440), ("HDMI-A-1", 1920, 1080)]));
    assert_eq!(
        layout.at,
        vec![Point::new(1920, 200), Point::new(0, 0)]
    );
}

#[test]
fn an_unconfigured_monitor_lands_beside_the_configured_ones() {
    let arrangement = Arrangement::new(vec![at("DP-1", 0, 0)]);
    let layout =
        arrangement.place(&monitors(&[("DP-1", 2560, 1440), ("HDMI-A-1", 1920, 1080)]));
    assert_eq!(layout.at, vec![Point::new(0, 0), Point::new(2560, 0)]);
}

#[test]
fn every_monitor_gets_a_position() {
    let arrangement = Arrangement::new(vec![at("nothing-called-this", 100, 100)]);
    let all = monitors(&[("DP-1", 800, 600), ("DP-2", 800, 600), ("DP-3", 800, 600)]);
    assert_eq!(arrangement.place(&all).at.len(), all.len());
}

#[test]
fn a_name_nothing_answers_to_is_reported() {
    let arrangement = Arrangement::new(vec![at("DP-1", 0, 0), at("DP-9", 0, 0)]);
    assert_eq!(
        arrangement.unmatched(&monitors(&[("DP-1", 800, 600)])),
        vec!["DP-9"]
    );
}

#[test]
fn a_monitor_can_be_placed_beside_another() {
    let arrangement = Arrangement::new(vec![
        at("DP-1", 0, 0),
        beside_of("DP-2", Side::Right, "DP-1", Align::Start),
    ]);
    let layout = arrangement.place(&monitors(&[("DP-1", 2560, 1440), ("DP-2", 1920, 1080)]));
    assert_eq!(layout.at, vec![Point::new(0, 0), Point::new(2560, 0)]);
    assert!(layout.unresolved.is_empty());
}

#[test]
fn beside_works_on_all_four_sides() {
    let anchor = Point::new(1000, 1000);
    let anchor_size = Size::new(2560, 1440);
    let size = Size::new(1920, 1080);
    let start = Align::Start;
    assert_eq!(
        beside(anchor, anchor_size, Side::Right, start, size),
        Point::new(3560, 1000)
    );
    assert_eq!(
        beside(anchor, anchor_size, Side::Left, start, size),
        Point::new(-920, 1000)
    );
    assert_eq!(
        beside(anchor, anchor_size, Side::Below, start, size),
        Point::new(1000, 2440)
    );
    assert_eq!(
        beside(anchor, anchor_size, Side::Above, start, size),
        Point::new(1000, -80)
    );
}

#[test]
fn alignment_decides_where_the_dead_strip_goes() {
    let anchor = Point::new(0, 0);
    let anchor_size = Size::new(2560, 1440);
    let size = Size::new(1920, 1080);
    assert_eq!(
        beside(anchor, anchor_size, Side::Right, Align::Start, size).y,
        0
    );
    assert_eq!(
        beside(anchor, anchor_size, Side::Right, Align::Centre, size).y,
        180
    );
    assert_eq!(
        beside(anchor, anchor_size, Side::Right, Align::End, size).y,
        360
    );
}

#[test]
fn a_chain_resolves_whatever_order_it_is_written_in() {
    let arrangement = Arrangement::new(vec![
        beside_of("DP-3", Side::Right, "DP-2", Align::Start),
        beside_of("DP-2", Side::Right, "DP-1", Align::Start),
        at("DP-1", 0, 0),
    ]);
    let layout = arrangement.place(&monitors(&[
        ("DP-1", 1000, 1000),
        ("DP-2", 1000, 1000),
        ("DP-3", 1000, 1000),
    ]));
    assert_eq!(
        layout.at,
        vec![
            Point::new(0, 0),
            Point::new(1000, 0),
            Point::new(2000, 0),
        ]
    );
}

#[test]
fn an_anchor_with_no_position_of_its_own_still_anchors() {
    let arrangement = Arrangement::new(vec![
        named("DP-1"),
        beside_of("DP-2", Side::Right, "DP-1", Align::Start),
    ]);
    let layout = arrangement.place(&monitors(&[("DP-2", 1920, 1080), ("DP-1", 2560, 1440)]));
    assert_eq!(layout.at, vec![Point::new(2560, 0), Point::new(0, 0)]);
    assert!(layout.unresolved.is_empty());
}

#[test]
fn a_chain_needs_no_coordinates_at_all() {
    let arrangement = Arrangement::new(vec![
        beside_of("DP-3", Side::Right, "DP-2", Align::Start),
        beside_of("DP-2", Side::Right, "DP-1", Align::Start),
        named("DP-1"),
    ]);
    let layout = arrangement.place(&monitors(&[
        ("DP-1", 1000, 1000),
        ("DP-2", 1000, 1000),
        ("DP-3", 1000, 1000),
    ]));
    assert_eq!(
        layout.at,
        vec![
            Point::new(0, 0),
            Point::new(1000, 0),
            Point::new(2000, 0),
        ]
    );
    assert!(layout.unresolved.is_empty());
}

#[test]
fn monitors_that_name_each_other_still_get_placed() {
    let arrangement = Arrangement::new(vec![
        beside_of("DP-1", Side::Right, "DP-2", Align::Start),
        beside_of("DP-2", Side::Right, "DP-1", Align::Start),
    ]);
    let layout = arrangement.place(&monitors(&[("DP-1", 800, 600), ("DP-2", 800, 600)]));
    assert_eq!(layout.at, vec![Point::new(0, 0), Point::new(800, 0)]);
    assert_eq!(layout.unresolved, vec!["DP-1"]);
}

#[test]
fn an_anchor_that_is_not_there_is_reported() {
    let arrangement = Arrangement::new(vec![beside_of(
        "DP-2",
        Side::Right,
        "the-one-i-unplugged",
        Align::Start,
    )]);
    let layout = arrangement.place(&monitors(&[("DP-2", 800, 600)]));
    assert_eq!(layout.at, vec![Point::new(0, 0)]);
    assert_eq!(layout.unresolved, vec!["DP-2"]);
}

#[test]
fn a_monitor_nobody_mentioned_is_on() {
    let arrangement = Arrangement::new(vec![Placement {
        enabled: false,
        ..named("DP-1")
    }]);
    assert!(!arrangement.enabled("DP-1"));
    assert!(arrangement.enabled("DP-2"));
}

#[test]
fn a_monitor_switched_off_cannot_be_the_primary_one() {
    let arrangement = Arrangement::new(vec![
        Placement {
            primary: true,
            enabled: false,
            ..named("DP-1")
        },
        Placement {
            primary: true,
            ..named("DP-2")
        },
    ]);
    assert_eq!(arrangement.primary(), Some("DP-2"));
}

#[test]
fn the_automatic_scale_reads_laptops_and_desktops_apart() {
    assert_eq!(f64::from(automatic(Size::new(294, 165), Size::new(3840, 2160))), 2.0);
    assert_eq!(f64::from(automatic(Size::new(596, 336), Size::new(2560, 1440))), 1.0);
    assert_eq!(f64::from(automatic(Size::new(596, 336), Size::new(3840, 2160))), 1.0);
    assert_eq!(f64::from(automatic(Size::new(0, 0), Size::new(3840, 2160))), 1.0);
}

#[test]
fn a_scale_outside_reason_is_refused() {
    assert_eq!(scaling((1.5_f64).to_bits()), Some(Scaling::Fixed((1.5_f64).to_bits())));
    assert_eq!(scaling((2.0_f64).to_bits()), Some(Scaling::Fixed((2.0_f64).to_bits())));
    assert_eq!(scaling((0.0_f64).to_bits()), None);
    assert_eq!(scaling((40.0_f64).to_bits()), None);
    assert_eq!(scaling((-2.0_f64).to_bits()), None);
}

#[test]
fn modes_parse_the_way_people_write_them() {
    assert_eq!(
        mode("2560x1440@165"),
        Some(Wanted::Exact {
            width: 2560,
            height: 1440,
            refresh: Some(165)
        })
    );
    assert_eq!(
        mode("1920x1080"),
        Some(Wanted::Exact {
            width: 1920,
            height: 1080,
            refresh: None
        })
    );
    assert_eq!(
        mode("2560x1440@59.94"),
        Some(Wanted::Exact {
            width: 2560,
            height: 1440,
            refresh: Some(60)
        })
    );
    assert_eq!(
        mode(" 2560 x 1440 @ 165 Hz "),
        Some(Wanted::Exact {
            width: 2560,
            height: 1440,
            refresh: Some(165)
        })
    );
    assert_eq!(mode("preferred"), Some(Wanted::Preferred));
    assert_eq!(mode("best"), Some(Wanted::Best));
    assert_eq!(mode("widest"), Some(Wanted::Widest));
    assert_eq!(mode("2560x"), None);
    assert_eq!(mode("2560x1440@"), None);
    assert_eq!(mode("2560x1440@0"), None);
    assert_eq!(mode("as big as it goes"), None);
}

#[test]
fn transforms_and_alignments_parse_the_names_people_write() {
    assert_eq!(transform("90"), Some(Transform::_90));
    assert_eq!(transform("Flipped-180"), Some(Transform::Flipped180));
    assert_eq!(transform("normal"), Some(Transform::Normal));
    assert_eq!(transform("sideways"), None);
    assert_eq!(align("center"), Some(Align::Centre));
    assert_eq!(align("centre"), Some(Align::Centre));
    assert_eq!(align("bottom"), Some(Align::End));
    assert_eq!(align("askew"), None);
}

fn exact(width: i32, height: i32, refresh: Option<i32>) -> Option<Wanted> {
    Some(Wanted::Exact {
        width,
        height,
        refresh,
    })
}

#[test]
fn a_rate_is_read_to_the_nearest_whole_hertz() {
    let rate = |text: &str| match mode(&format!("800x600@{text}")) {
        Some(Wanted::Exact { refresh, .. }) => refresh,
        _ => None,
    };
    assert_eq!(rate("59.5"), Some(60), "a half goes up");
    assert_eq!(rate("59.4999"), Some(59));
    assert_eq!(rate("0.4"), Some(0), "above nothing, and nearest to it");
    assert_eq!(rate("6e1"), Some(60));
    assert_eq!(rate("6000e-2hz"), Some(60));
    assert_eq!(rate("+75."), Some(75));
    assert_eq!(rate(".5"), Some(1));
    assert_eq!(rate("144hzhz"), Some(144));
    assert_eq!(rate("1e99"), Some(i32::MAX));
    assert_eq!(rate("1e-99"), Some(0));
    assert_eq!(rate("2147483648"), Some(i32::MAX));
    assert_eq!(rate("inf"), Some(i32::MAX));
    assert_eq!(rate("nan"), Some(0));
    for unreadable in ["-60", "-inf", "0.0", "0e9", ".", "1.2.3", "6e", "6e+", "sixty", "1_0"] {
        assert_eq!(mode(&format!("800x600@{unreadable}")), None, "{unreadable}");
    }
}

#[test]
fn a_resolution_is_two_numbers_above_nothing() {
    assert_eq!(mode("+800x+600"), exact(800, 600, None));
    assert_eq!(mode("2147483647x1"), exact(i32::MAX, 1, None));
    assert_eq!(mode("2147483648x1"), None);
    assert_eq!(mode("0x600"), None);
    assert_eq!(mode("-800x600"), None);
    assert_eq!(mode("800x600x2"), None);
    assert_eq!(mode("\u{3000}800 x\t600\u{a0}"), exact(800, 600, None));
    assert_eq!(mode("  AUTO "), Some(Wanted::Best));
    assert_eq!(mode(""), Some(Wanted::Best));
    assert_eq!(mode("HighRes"), Some(Wanted::Widest));
}

#[test]
fn the_screen_under_a_place_is_the_first_that_has_it() {
    let screens = vec![Rect::new(0, 0, 100, 100), Rect::new(50, 0, 100, 100)];
    assert_eq!(solium::monitor::at(&screens, 60, 10), Some(0));
    assert_eq!(solium::monitor::at(&screens, 100, 10), Some(1));
    assert_eq!(solium::monitor::at(&screens, 150, 10), None);
    assert_eq!(nearest(&vec![9, 4, 4, 25]), Some(1));
    assert_eq!(nearest(&vec![]), None);
}

#[test]
fn the_desktop_is_around_every_screen() {
    assert_eq!(union(&vec![]), None);
    assert_eq!(
        union(&vec![
            Rect::new(0, 0, 2560, 1440),
            Rect::new(2560, 180, 1920, 1080),
            Rect::new(-1280, 0, 1280, 1024),
        ]),
        Some(Rect::new(-1280, 0, 5760, 1440))
    );
}

#[test]
fn a_monitor_is_driven_the_way_it_was_said_to_be() {
    let arrangement = Arrangement::new(vec![
        Placement {
            mode: Wanted::Widest,
            vrr: Some(true),
            transform: Some(Transform::_90),
            scale: Scaling::Fixed(2.0_f64.to_bits()),
            ..named("DP-1")
        },
        named("DP-1"),
    ]);
    assert_eq!(arrangement.mode("DP-1"), Wanted::Widest);
    assert_eq!(arrangement.vrr("DP-1"), Some(true));
    assert_eq!(arrangement.transform("DP-1"), Some(Transform::_90));
    assert_eq!(
        arrangement.scale("DP-1"),
        Scaling::Fixed(2.0_f64.to_bits()),
        "the first that names it wins"
    );
    assert_eq!(arrangement.mode("DP-2"), Wanted::Best);
    assert_eq!(arrangement.vrr("DP-2"), None);
    assert_eq!(arrangement.scale("DP-2"), Scaling::Auto);
    assert_eq!(arrangement.primary(), None);
    assert!(arrangement.find("DP-3").is_none());
}

#[test]
fn an_odd_strip_is_halved_towards_nothing() {
    let anchor = Point::new(0, 0);
    let at = |own: i32| {
        beside(
            anchor,
            Size::new(100, 100),
            Side::Right,
            Align::Centre,
            Size::new(100, own),
        )
        .y
    };
    assert_eq!(at(95), 2);
    assert_eq!(at(105), -2);
}

#[test]
fn a_desk_of_any_ordinary_size_has_room() {
    let desk = monitors(&[("DP-1", 2560, 1440), ("DP-2", 3840, 2160), ("DP-3", 1280, 1024)]);
    assert!(Arrangement::default().has_room(&desk));
    assert!(Arrangement::default().has_room(&[]));
    let far = Arrangement::new(vec![
        at("DP-1", -1_000_000, 2_000_000),
        beside_of("DP-2", Side::Left, "DP-1", Align::End),
    ]);
    assert!(far.has_room(&desk));
    assert_eq!(far.place(&desk).at[0], Point::new(-1_000_000, 2_000_000));

    let further = Arrangement::new(vec![at("DP-1", i32::MAX, 0)]);
    assert!(!further.has_room(&desk), "the next one is past the end");
    let alone = monitors(&[("DP-1", 2560, 1440)]);
    assert!(further.has_room(&alone));
    assert_eq!(further.place(&alone).at, vec![Point::new(i32::MAX, 0)]);
    assert!(further.has_room(&monitors(&[("DP-2", 1920, 1080)])), "it is not plugged in");
    let left = Arrangement::new(vec![
        at("DP-1", i32::MIN, 0),
        beside_of("DP-2", Side::Left, "DP-1", Align::Start),
    ]);
    assert!(!left.has_room(&desk));
}

#[test]
fn a_chain_begins_at_its_foot_in_whatever_order_it_comes() {
    let arrangement = Arrangement::new(vec![
        beside_of("DP-3", Side::Right, "DP-2", Align::Start),
        beside_of("DP-2", Side::Right, "DP-1", Align::Start),
        named("DP-1"),
    ]);
    let layout = arrangement.place(&monitors(&[
        ("DP-2", 1000, 1000),
        ("DP-1", 1000, 1000),
        ("DP-3", 1000, 1000),
    ]));
    assert_eq!(
        layout.at,
        vec![Point::new(1000, 0), Point::new(0, 0), Point::new(2000, 0)]
    );
    assert!(layout.unresolved.is_empty());
}

#[test]
fn a_chain_off_a_monitor_that_is_not_there_begins_at_its_foot_too() {
    let arrangement = Arrangement::new(vec![
        beside_of("DP-3", Side::Right, "DP-2", Align::Start),
        beside_of("DP-2", Side::Right, "DP-1", Align::Start),
        beside_of("DP-1", Side::Right, "gone", Align::Start),
    ]);
    let layout = arrangement.place(&monitors(&[
        ("DP-2", 100, 100),
        ("DP-3", 100, 100),
        ("DP-1", 100, 100),
    ]));
    assert_eq!(
        layout.at,
        vec![Point::new(100, 0), Point::new(200, 0), Point::new(0, 0)]
    );
    assert_eq!(layout.unresolved, vec!["DP-1"]);
}

#[test]
fn a_monitor_off_a_circle_is_neither_where_it_begins_nor_reported() {
    let arrangement = Arrangement::new(vec![
        beside_of("DP-4", Side::Right, "DP-3", Align::Start),
        beside_of("DP-3", Side::Right, "DP-1", Align::Start),
        beside_of("DP-1", Side::Right, "DP-2", Align::Start),
        beside_of("DP-2", Side::Right, "DP-1", Align::Start),
    ]);
    let layout = arrangement.place(&monitors(&[
        ("DP-4", 100, 100),
        ("DP-3", 100, 100),
        ("DP-2", 100, 100),
        ("DP-1", 100, 100),
    ]));
    assert_eq!(
        layout.at,
        vec![
            Point::new(300, 0),
            Point::new(200, 0),
            Point::new(0, 0),
            Point::new(100, 0),
        ]
    );
    assert_eq!(layout.unresolved, vec!["DP-2"]);
}

#[test]
fn a_monitor_beside_itself_is_reported() {
    let arrangement =
        Arrangement::new(vec![beside_of("DP-1", Side::Right, "DP-1", Align::Start)]);
    let layout = arrangement.place(&monitors(&[("DP-2", 100, 100), ("DP-1", 100, 100)]));
    assert_eq!(layout.at, vec![Point::new(100, 0), Point::new(0, 0)]);
    assert_eq!(layout.unresolved, vec!["DP-1"]);
}

#[test]
fn a_circle_and_a_chain_begin_in_the_order_they_come() {
    let arrangement = Arrangement::new(vec![
        beside_of("DP-1", Side::Right, "DP-2", Align::Start),
        beside_of("DP-2", Side::Right, "DP-1", Align::Start),
        beside_of("DP-4", Side::Right, "DP-3", Align::Start),
    ]);
    let layout = arrangement.place(&monitors(&[
        ("DP-1", 100, 100),
        ("DP-2", 100, 100),
        ("DP-3", 100, 100),
        ("DP-4", 100, 100),
    ]));
    assert_eq!(
        layout.at,
        vec![
            Point::new(0, 0),
            Point::new(100, 0),
            Point::new(200, 0),
            Point::new(300, 0),
        ]
    );
    assert_eq!(layout.unresolved, vec!["DP-1"]);
}

/// The rate in whole hertz as a double says it.
fn as_a_double(text: &str) -> Option<i32> {
    let rate: f64 = text.parse().ok()?;
    if rate <= 0.0 {
        None
    } else {
        Some(rate.round() as i32)
    }
}

fn refresh(text: &str) -> Option<i32> {
    match mode(&format!("800x600@{text}")) {
        Some(Wanted::Exact { refresh, .. }) => refresh,
        _ => None,
    }
}

#[test]
fn a_rate_is_read_as_the_double_it_is_nearest_to() {
    assert_eq!(refresh("1e-400"), None, "nearer to nothing than to any double");
    assert_eq!(refresh("5e-324"), Some(0), "the smallest double is above nothing");
    assert_eq!(refresh("2.4703282292062327e-324"), None);
    assert_eq!(refresh("2.4703282292062328e-324"), Some(0));
    assert_eq!(refresh("0.49999999999999997"), Some(0), "a double below the half");
    assert_eq!(refresh("0.49999999999999998"), Some(1), "the half, as a double");
    assert_eq!(refresh("59.49999999999999999"), Some(60));
    assert_eq!(refresh("59.4999999999999"), Some(59));
    assert_eq!(refresh("2147483646.4999999999"), Some(i32::MAX));
    assert_eq!(refresh("0e99"), None);
    assert_eq!(refresh("1e999999999999999999999999999999"), Some(i32::MAX));
    assert_eq!(refresh("1e-999999999999999999999999999999"), None);
}

#[test]
fn rates_are_read_as_doubles_about_every_half() {
    for whole in [0_u64, 1, 2, 3, 7, 8, 59, 60, 143, 1 << 20, (1 << 31) - 2, (1 << 31) - 1] {
        for digits in 1..40 {
            let nines = "9".repeat(digits);
            let zeros = "0".repeat(digits);
            for text in [
                format!("{whole}.4{nines}"),
                format!("{whole}.5{zeros}1"),
                format!("{whole}.{nines}"),
                format!("{whole}.{zeros}1"),
                format!("{whole}.49999999999999{digits}"),
                format!("{whole}.499999999999999{digits}"),
                format!("{whole}.4999999999999999{digits}"),
                format!("{whole}.49999999999999999{digits}"),
            ] {
                assert_eq!(refresh(&text), as_a_double(&text), "{text}");
            }
        }
    }
}

#[test]
fn rates_are_read_as_doubles_whatever_their_exponent() {
    for exponent in -345..=15 {
        for digits in ["1", "2.4703282292062327208", "2.47032822920623273", "4.9406", "999", "0.05"] {
            let text = format!("{digits}e{exponent}");
            assert_eq!(refresh(&text), as_a_double(&text), "{text}");
        }
    }
}

#[test]
fn a_density_is_worked_out_in_doubles() {
    let scale = |mm: i32, px: i32| automatic(Size::new(mm, 1), Size::new(px, 1));
    assert_eq!(scale(127, 960), 2, "192 to the inch");
    assert_eq!(scale(6477, 48_960), 1, "192 to the inch, but not as a double");
    assert_eq!(scale(127, 959), 1);
    let by_doubles = |mm: i32, px: i32| {
        if f64::from(px) / (f64::from(mm) / 25.4) >= 192.0 {
            2
        } else {
            1
        }
    };
    for step in 1..20_000 {
        for off in -1..=1 {
            let (mm, px) = (127 * step, 960 * step + off);
            assert_eq!(scale(mm, px), by_doubles(mm, px), "{mm} {px}");
        }
    }
    for mm in [1, 2, 3, 254, 294, 596, i32::MAX - 1, i32::MAX] {
        for px in [1, 7, 8, 15, 16, 24, 25, 48, 72, 2560, 3840, i32::MAX] {
            assert_eq!(scale(mm, px), by_doubles(mm, px), "{mm} {px}");
        }
    }
    assert_eq!(scale(-294, 3840), 1);
}

#[test]
fn scales_are_the_same_as_doubles_are() {
    let fixed = |scale: f64| Scaling::Fixed(scale.to_bits());
    assert_eq!(fixed(1.5), fixed(1.5));
    assert_ne!(fixed(1.5), fixed(2.0));
    assert_ne!(fixed(1.0), Scaling::Auto);
    assert_eq!(fixed(0.0), fixed(-0.0));
    assert_ne!(fixed(f64::NAN), fixed(f64::NAN));
}

#[test]
fn the_order_placements_are_written_in_makes_no_difference() {
    let right_of = |name: &str, anchor: &str| Placement {
        beside: Some((Side::Right, anchor.to_owned(), Align::Start)),
        ..named(name)
    };
    let plugged = monitors(&[("C", 1000, 500), ("A", 800, 600), ("B", 640, 480), ("D", 300, 300)]);
    let written = [
        at("D", 5000, 0),
        right_of("B", "A"),
        right_of("C", "B"),
        named("A"),
        right_of("X", "Y"),
    ];
    let first = Arrangement::new(written.to_vec()).place(&plugged);
    for turn in 1..written.len() {
        let mut turned = written.to_vec();
        turned.rotate_left(turn);
        let layout = Arrangement::new(turned).place(&plugged);
        assert_eq!(layout.at, first.at);
        assert_eq!(layout.unresolved, first.unresolved);
    }
}
