//! The textures windows and screens are drawn into.

use std::cell::Cell;
use std::rc::Rc;

use solium::geometry::Size;
use solium::offscreen::{
    back_to_front, capture, Capture, Drawing, Scratch, Screens, KEPT,
};

/// How many device pixels a window is captured at on a monitor of a scale.
fn pixels(outer: Size, scale: f64) -> Size {
    let along = |length: i32| (f64::from(length) * scale).ceil() as i32;
    solium::offscreen::pixels(Size::new(along(outer.w), along(outer.h)))
}

fn window() -> Size {
    Size::new(1150, 850)
}

fn bytes(size: Size) -> i64 {
    i64::from(size.w) * i64::from(size.h) * 4
}

struct Buffer(Rc<Cell<u32>>);
impl Drop for Buffer {
    fn drop(&mut self) {
        self.0.set(self.0.get() + 1);
    }
}
impl std::fmt::Debug for Buffer {
    fn fmt(&self, f: &mut std::fmt::Formatter<'_>) -> std::fmt::Result {
        f.write_str("Buffer")
    }
}

#[derive(Clone, Debug)]
struct Handle(Rc<Buffer>);
impl Handle {
    fn on(freed: &Rc<Cell<u32>>) -> Self {
        Self(Rc::new(Buffer(Rc::clone(freed))))
    }

    fn handles(&self) -> usize {
        Rc::strong_count(&self.0)
    }
}

#[test]
fn a_genie_costs_one_texture_and_not_one_a_frame() {
    const FRAMES: u16 = 60;

    let outer = window();
    let mut scratch: Scratch<u32> = Scratch::default();
    let mut allocations = 0_u32;

    for _step in 0..=FRAMES {
        let size = pixels(outer, 1.0);
        let _texture = scratch
            .texture(size, || {
                allocations += 1;
                Ok::<u32, ()>(allocations)
            })
            .expect("a counting allocator cannot fail");
    }

    assert_eq!(
        allocations,
        1,
        "a texture per frame of the genie: {} allocations, {} MB",
        FRAMES,
        i64::from(FRAMES) * bytes(pixels(outer, 1.0)) / 1_000_000
    );
}

#[test]
fn a_resized_window_replaces_its_texture_rather_than_keeping_both() {
    assert_eq!(KEPT, 1, "the arithmetic in this test is the cap's");

    let freed = Rc::new(Cell::new(0));
    let mut scratch: Scratch<Handle> = Scratch::default();

    for width in [1150, 1151, 1152] {
        let size = pixels(Size::new(width, 850), 1.0);
        let _texture = scratch
            .texture(size, || Ok::<Handle, ()>(Handle::on(&freed)))
            .expect("a counting allocator cannot fail");
    }
    assert_eq!(
        freed.get(),
        2,
        "the cache held every size it was ever asked for"
    );

    let mut more = 0_u32;
    let size = pixels(Size::new(1152, 850), 1.0);
    let texture = scratch
        .texture(size, || {
            more += 1;
            Ok::<Handle, ()>(Handle::on(&freed))
        })
        .expect("a counting allocator cannot fail");
    assert_eq!(more, 0, "the size it was last asked for was not kept");

    drop(texture);
    assert_eq!(freed.get(), 2, "the cache stopped holding the texture");
    drop(scratch);
    assert_eq!(freed.get(), 3, "dropping the pane kept its texture alive");
}

#[test]
fn a_pane_that_stops_warping_gives_the_texture_back() {
    let freed = Rc::new(Cell::new(0));
    let mut scratch: Scratch<Handle> = Scratch::default();
    let size = pixels(window(), 1.0);

    let texture = scratch
        .texture(size, || Ok::<Handle, ()>(Handle::on(&freed)))
        .expect("a counting allocator cannot fail");
    assert_eq!(freed.get(), 0);
    assert_eq!(texture.handles(), 2, "the cache did not keep a handle");
    drop(texture);

    scratch.release();
    assert_eq!(
        freed.get(),
        1,
        "a pane that is not being warped kept its texture"
    );

    let mut again = 0_u32;
    let _texture = scratch
        .texture(size, || {
            again += 1;
            Ok::<Handle, ()>(Handle::on(&freed))
        })
        .expect("a counting allocator cannot fail");
    assert_eq!(again, 1, "a released pane could not be warped again");
}

#[test]
fn a_window_crossing_to_a_2x_monitor_asks_for_a_different_buffer() {
    let outer = window();
    assert_eq!(pixels(outer, 1.0), Size::new(1150, 850));
    assert_eq!(pixels(outer, 2.0), Size::new(2300, 1700));
    assert_eq!(pixels(outer, 1.5), Size::new(1725, 1275));

    assert_eq!(bytes(pixels(outer, 1.0)), 3_910_000);
    assert_eq!(bytes(pixels(outer, 2.0)), 15_640_000);

    let mut scratch: Scratch<u32> = Scratch::default();
    let mut allocations = 0_u32;
    for scale in [1.0, 1.0, 2.0, 2.0] {
        let _texture = scratch
            .texture(pixels(outer, scale), || {
                allocations += 1;
                Ok::<u32, ()>(allocations)
            })
            .expect("a counting allocator cannot fail");
    }
    assert_eq!(
        allocations, 2,
        "the two monitors did not each get a buffer of their own"
    );
}

#[test]
fn a_window_with_no_size_still_asks_for_a_pixel() {
    assert_eq!(pixels(Size::new(0, 0), 1.0), Size::new(1, 1));
    assert_eq!(pixels(Size::new(1, 1), 0.1), Size::new(1, 1));
}

#[test]
fn a_texture_that_could_not_be_made_is_not_kept() {
    let mut scratch: Scratch<u32> = Scratch::default();
    let size = Size::new(10, 10);
    assert_eq!(scratch.texture(size, || Ok::<u32, &str>(3)), Ok(3));
    assert_eq!(
        scratch.texture(Size::new(11, 10), || Err("no memory")),
        Err("no memory")
    );
    assert_eq!(
        scratch.texture(size, || Err("not asked")),
        Ok(3),
        "and the one that was kept still is"
    );
}

#[test]
fn a_window_with_nothing_in_it_is_not_captured() {
    assert_eq!(capture(None, 3), Capture::Gone);
    assert_eq!(capture(Some(Size::new(4, 4)), 0), Capture::Empty);
    assert_eq!(
        capture(Some(Size::new(0, 4)), 2),
        Capture::Into(Size::new(1, 4))
    );
}

#[test]
fn a_bind_that_was_tried_is_let_go_of() {
    for how in [
        Drawing::Unbound,
        Drawing::Unbegun,
        Drawing::Unfinished,
        Drawing::Unwaited,
    ] {
        assert!(!how.usable() && how.releases(), "{how:?}");
    }
    assert!(!Drawing::Unmade.usable() && !Drawing::Unmade.releases());
    assert!(Drawing::Drawn.usable() && Drawing::Drawn.releases());
}

#[test]
fn every_screen_has_a_texture_of_its_own_size() {
    let mut screens: Screens<u32> = Screens::new();
    let size = Size::new(1920, 1080);
    let mut made = 0;
    let mut texture = |screens: &mut Screens<u32>, index: usize, size: Size, most: u32| {
        screens
            .texture(index, size, |buffer| {
                assert_eq!(buffer, Size::new(size.w.max(1), size.h));
                made += 1;
                (made <= most).then_some(made)
            })
            .copied()
    };
    assert_eq!(texture(&mut screens, 1, size, 9), Some(2));
    assert_eq!(
        screens.textures,
        vec![(size, 1), (size, 2)],
        "one for the screen before it as well"
    );
    assert_eq!(texture(&mut screens, 0, size, 9), Some(1));
    assert_eq!(texture(&mut screens, 1, size, 9), Some(2));

    let other = Size::new(0, 1080);
    assert_eq!(texture(&mut screens, 1, other, 9), Some(3));
    assert_eq!(screens.textures, vec![(size, 1), (other, 3)]);

    assert_eq!(texture(&mut screens, 0, other, 3), None, "none to be had");
    assert_eq!(screens.textures, vec![(size, 1), (other, 3)]);
    assert_eq!(texture(&mut screens, 3, size, 5), None);
    assert_eq!(screens.textures, vec![(size, 1), (other, 3), (size, 5)]);
}

#[test]
fn a_screen_is_painted_from_the_back() {
    assert_eq!(back_to_front(3), vec![2, 1, 0]);
    assert_eq!(back_to_front(0), Vec::<usize>::new());
}
