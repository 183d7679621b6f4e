//! Which pictures of a scene are kept, and what comes of drawing one.

use std::cell::Cell;
use std::rc::Rc;

use solium::geometry::Size;
use solium::paint::{Drawn, Gpu, Kept, Rendered, Said, Step, Taken, KEPT};

/// The bits of the scales 1 and 2.
const ONE: u64 = 0x3ff0_0000_0000_0000;
const TWO: u64 = 0x4000_0000_0000_0000;

const ON_THE_1X: Drawn = Drawn {
    pixels: Size { w: 1150, h: 850 },
    scale: ONE,
};
const ON_THE_2X: Drawn = Drawn {
    pixels: Size { w: 2300, h: 1700 },
    scale: TWO,
};

#[test]
fn a_window_across_a_bezel_is_drawn_twice_and_then_not_again() {
    let mut bound = Size::new(0, 0);
    let mut rebinds = 0;
    for _ in 0..100 {
        for wanted in [ON_THE_1X, ON_THE_2X] {
            if bound != wanted.pixels {
                rebinds += 1;
                bound = wanted.pixels;
            }
        }
    }
    assert_eq!(
        rebinds, 200,
        "the churn this cache exists to stop: two rebinds a frame, for ever"
    );

    let mut kept: Kept<Drawn, u32> = Kept::keeping(KEPT);
    let mut renders = 0;
    for frame in 0..100 {
        for wanted in [ON_THE_1X, ON_THE_2X] {
            if !kept.current(wanted, false) {
                renders += 1;
                kept.push(wanted, frame);
            }
        }
    }
    assert_eq!(
        renders, 2,
        "a straddling window was re-rendered after the first frame"
    );
    assert!(kept.get(ON_THE_1X).is_some() && kept.get(ON_THE_2X).is_some());
}

#[test]
fn new_content_drops_the_other_monitor_s_size_too() {
    let mut kept: Kept<Drawn, u32> = Kept::keeping(KEPT);
    kept.push(ON_THE_1X, 1);
    kept.push(ON_THE_2X, 1);

    assert!(!kept.current(ON_THE_1X, true));
    kept.push(ON_THE_1X, 2);
    assert!(
        !kept.current(ON_THE_2X, false),
        "the 2x monitor kept a picture from before the change"
    );
}

#[test]
fn one_pixel_size_at_two_scales_is_two_pictures() {
    let mut kept: Kept<Drawn, u32> = Kept::keeping(KEPT);
    let at_one = Drawn {
        pixels: Size { w: 2300, h: 1700 },
        scale: ONE,
    };
    kept.push(ON_THE_2X, 1);
    assert!(
        !kept.current(at_one, false),
        "a scale-2 picture was served to a scale-1 output"
    );
}

#[test]
fn the_cap_is_two_and_evicts_the_oldest() {
    let mut kept: Kept<Drawn, u32> = Kept::keeping(KEPT);
    let sizes: Vec<Drawn> = (1..=(KEPT + 2))
        .map(|step| Drawn {
            pixels: Size::new(100 * step as i32, 100),
            scale: ONE,
        })
        .collect();
    for size in &sizes {
        kept.push(*size, 0);
    }
    assert_eq!(kept.count(), KEPT);
    assert!(!kept.current(sizes[0], false), "the oldest size was kept");
    assert!(
        kept.current(sizes[KEPT + 1], false),
        "the newest size was dropped"
    );
}

#[test]
fn eviction_drops_the_buffer_rather_than_parking_it() {
    struct Counted(Rc<Cell<u32>>);
    impl Drop for Counted {
        fn drop(&mut self) {
            self.0.set(self.0.get() + 1);
        }
    }
    impl std::fmt::Debug for Counted {
        fn fmt(&self, f: &mut std::fmt::Formatter<'_>) -> std::fmt::Result {
            f.write_str("Counted")
        }
    }

    let dropped = Rc::new(Cell::new(0));
    let mut kept: Kept<i32, Counted> = Kept::keeping(2);
    for size in 1..=5 {
        kept.push(size, Counted(Rc::clone(&dropped)));
    }
    assert_eq!(dropped.get(), 3, "three evictions freed nothing");

    kept.push(5, Counted(Rc::clone(&dropped)));
    assert_eq!(dropped.get(), 4, "the replaced picture was kept alive");

    drop(kept);
    assert_eq!(dropped.get(), 6, "dropping the cache kept its buffers");
}

#[test]
fn a_cap_of_zero_still_holds_one() {
    let mut kept: Kept<i32, u32> = Kept::keeping(0);
    kept.push(24, 1);
    assert!(kept.current(24, false));
}

#[test]
fn a_complaint_is_said_once_and_is_news_again_after_a_success() {
    let mut said = Said::default();
    let mut lines = 0;
    for _ in 0..100 {
        said.once(|| lines += 1);
    }
    assert_eq!(lines, 1, "a scene logged once per frame");

    said.worked();
    for _ in 0..100 {
        said.once(|| lines += 1);
    }
    assert_eq!(lines, 2, "a failure after a success was swallowed");
}

#[test]
fn what_is_kept_can_be_changed_where_it_is() {
    let mut kept: Kept<i32, u32> = Kept::keeping(3);
    kept.push(1, 10);
    kept.push(2, 20);
    if let Some(value) = kept.get_mut(1) {
        *value = 11;
    }
    assert_eq!(kept.get(1), Some(&11));
    assert_eq!(kept.get(2), Some(&20));
    assert!(kept.get_mut(3).is_none());
    assert!(kept.current(2, false));
    assert!(!kept.current(2, true));
    assert_eq!(kept.count(), 0);
}

fn small() -> Size {
    Size::new(100, 100)
}

/// A scene whose first picture has been taken.
fn drawn_once() -> Gpu<u32> {
    let mut gpu: Gpu<u32> = Gpu::new(small());
    assert_eq!(gpu.refresh(small()), Step::Render);
    assert_eq!(
        gpu.rendered(Rendered::Drawn { fenced: true }),
        Step::Restore(Rendered::Drawn { fenced: true })
    );
    assert_eq!(
        gpu.restored(Rendered::Drawn { fenced: true }, true),
        (Step::Wait, false)
    );
    assert_eq!(gpu.waited(true), (Step::Take, false));
    assert!(!gpu.take(ONE, Taken::Imported(7)));
    gpu
}

#[test]
fn a_picture_that_was_taken_is_drawn_and_kept() {
    let mut gpu = drawn_once();
    let wanted = Drawn {
        pixels: small(),
        scale: ONE,
    };
    assert!(!gpu.stale(wanted, false));
    assert_eq!(gpu.picture(wanted).map(|shown| shown.texture), Some(7));
    let other = Drawn {
        scale: TWO,
        ..wanted
    };
    assert_eq!(
        gpu.picture(other).map(|shown| shown.texture),
        Some(7),
        "the last there was, for want of one"
    );
    assert!(gpu.stale(wanted, true), "something new to draw");
    assert!(gpu.stale(wanted, false), "and nothing kept is current");
}

#[test]
fn a_scene_is_bound_to_a_buffer_of_the_size_that_is_wanted() {
    let mut gpu = drawn_once();
    let large = Size::new(200, 200);
    assert_eq!(gpu.refresh(large), Step::Rebind);
    assert_eq!(
        gpu.rebound(large, false),
        Step::Restore(Rendered::Failed),
        "the context is restored all the same"
    );
    assert_eq!(gpu.bound, small());
    assert_eq!(gpu.rebound(large, true), Step::Render);
    assert_eq!(gpu.bound, large);
    assert_eq!(
        gpu.restored(Rendered::Unchanged, true),
        (Step::Take, false),
        "the last picture is not of this buffer"
    );
    assert!(!gpu.take(ONE, Taken::Imported(8)));
    assert_eq!(
        gpu.restored(Rendered::Unchanged, true),
        (Step::End { usable: true }, false)
    );
}

#[test]
fn a_scene_that_fails_is_complained_of_once_and_shows_its_last_picture() {
    let mut gpu = drawn_once();
    for news in [true, false] {
        assert_eq!(
            gpu.restored(Rendered::Failed, true),
            (Step::End { usable: true }, news)
        );
        assert_eq!(gpu.waited(false), (Step::End { usable: false }, news));
        assert_eq!(gpu.take(ONE, Taken::Missing), news);
    }
    for news in [true, false] {
        assert_eq!(
            gpu.restored(Rendered::Unchanged, false),
            (Step::End { usable: false }, news)
        );
    }
    assert!(gpu.take(ONE, Taken::Refused));
    assert!(!gpu.take(ONE, Taken::Refused));
    assert!(
        gpu.take(ONE, Taken::Missing),
        "there was a buffer in between, so this is news"
    );
    assert_eq!(gpu.shown.as_ref().map(|shown| shown.texture), Some(7));
    gpu.rendered(Rendered::Unchanged);
    assert_eq!(
        gpu.restored(Rendered::Failed, true),
        (Step::End { usable: true }, true),
        "it rendered in between"
    );
}

#[test]
fn a_picture_is_found_by_its_scale_as_a_double() {
    let at = |scale: f64| Drawn {
        pixels: Size::new(100, 100),
        scale: scale.to_bits(),
    };
    let mut kept: Kept<Drawn, u32> = Kept::keeping(KEPT);
    kept.push(at(0.0), 1);
    assert_eq!(kept.get(at(-0.0)), Some(&1), "the two zeros are one scale");
    kept.push(at(-0.0), 2);
    assert_eq!(kept.count(), 1);
    assert_eq!(kept.get(at(0.0)), Some(&2));

    kept.push(at(f64::NAN), 3);
    assert_eq!(kept.get(at(f64::NAN)), None, "no scale is the same as this one");
    assert!(!kept.current(at(f64::NAN), false));
    kept.push(at(f64::NAN), 4);
    assert_eq!(kept.count(), KEPT);
    assert_eq!(kept.get(at(0.0)), None, "and it takes up room all the same");

    assert_eq!(at(2.0), at(2.0));
    assert_ne!(at(2.0), at(-2.0));
    assert_eq!(at(f64::INFINITY), at(f64::INFINITY));
    assert_ne!(at(f64::NAN), at(f64::NAN));
}
