//! The sizes a scene's buffer may have, and what of it the host is handed.

use solium::target::{allocate, as_ffi, size_is_sane, Unfit, MAX_SIDE};

#[test]
fn a_zero_sized_target_is_refused() {
    assert!(!size_is_sane(0, 100));
    assert!(!size_is_sane(100, 0));
    assert!(!size_is_sane(-4, 100));
}

#[test]
fn an_absurd_size_is_refused() {
    assert!(!size_is_sane(20_000, 20_000));
    assert!(size_is_sane(2560, 1440));
}

#[test]
fn the_cap_is_inclusive_of_max_side_and_no_further() {
    assert!(size_is_sane(MAX_SIDE, MAX_SIDE));
    assert!(!size_is_sane(MAX_SIDE + 1, MAX_SIDE));
    assert!(!size_is_sane(MAX_SIDE, MAX_SIDE + 1));
}

#[test]
fn a_buffer_is_asked_for_at_a_size_that_is_one() {
    assert_eq!(allocate(640, 480), Some((640, 480)));
    assert_eq!(allocate(0, 480), None);
    assert_eq!(allocate(640, MAX_SIDE + 1), None);
}

#[test]
fn the_host_takes_a_buffer_of_one_plane() {
    assert_eq!(as_ffi(1, Some(7), Some(2560)), Ok((7, 2560)));
    assert_eq!(as_ffi(2, Some(7), Some(2560)), Err(Unfit::Planes(2)));
    assert_eq!(as_ffi(0, None, None), Err(Unfit::Planes(0)));
    assert_eq!(as_ffi(1, None, Some(2560)), Err(Unfit::NoPlane));
    assert_eq!(as_ffi(1, Some(7), None), Err(Unfit::NoStride));
    assert_eq!(
        as_ffi(1, Some(7), Some(0x8000_0000)),
        Err(Unfit::Stride(0x8000_0000))
    );
    assert_eq!(as_ffi(1, Some(7), Some(0x7fff_ffff)), Ok((7, i32::MAX)));
}
