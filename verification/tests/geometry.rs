//! Points, sizes and rectangles.

use solium::geometry::{max, min, minus, narrow, plus, Point, Rect, Size};

#[test]
fn a_rectangle_has_its_near_edges_and_not_its_far_ones() {
    let rect = Rect::new(10, 20, 5, 5);
    assert!(rect.contains(Point::new(10, 20)));
    assert!(rect.contains(Point::new(14, 24)));
    assert!(!rect.contains(Point::new(15, 20)));
    assert!(!rect.contains(Point::new(10, 25)));
    assert!(!Rect::from_size(Size::new(0, 9)).contains(Point::new(0, 0)));
}

#[test]
fn rectangles_that_touch_do_not_overlap() {
    let rect = Rect::new(0, 0, 10, 10);
    assert!(rect.overlaps(Rect::new(9, 9, 1, 1)));
    assert!(!rect.overlaps(Rect::new(10, 0, 5, 5)));
    assert!(!rect.overlaps(Rect::new(0, -5, 5, 5)));
}

#[test]
fn two_rectangles_merge_into_the_one_around_both() {
    assert_eq!(
        Rect::new(0, 0, 10, 10).merge(Rect::new(20, -5, 5, 5)),
        Rect::new(0, -5, 25, 15)
    );
}

#[test]
fn coordinates_stop_at_their_ends() {
    assert_eq!(plus(i32::MAX, 1), i32::MAX);
    assert_eq!(minus(i32::MIN, 1), i32::MIN);
    assert_eq!(plus(3, -5), -2);
    assert_eq!(narrow(1 << 40), i32::MAX);
    assert_eq!((max(2, 3), min(2, 3)), (3, 2));
    assert_eq!(
        Point::new(3, 4).from_origin(Point::new(10, 1)),
        Point::new(-7, 3)
    );
}
