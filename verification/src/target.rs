//! The buffers scenes are drawn into.

use vstd::prelude::*;

verus! {

/// The longest side a scene's buffer may have, in device pixels.
pub const MAX_SIDE: i32 = 8_192;

/// Whether a buffer of this size can be asked for.
pub open spec fn is_sane(width: i32, height: i32) -> bool {
    1 <= width <= MAX_SIDE && 1 <= height <= MAX_SIDE
}

/// Whether a buffer of this size can be asked for: there is something of it,
/// and not more than [`MAX_SIDE`] either way.
pub fn size_is_sane(width: i32, height: i32) -> (r: bool)
    ensures
        r == is_sane(width, height),
{
    width > 0 && height > 0 && width <= MAX_SIDE && height <= MAX_SIDE
}

/// The buffer to ask for, or none where this is not a size.
pub fn allocate(width: i32, height: i32) -> (buffer: Option<(u32, u32)>)
    ensures
        buffer == if is_sane(width, height) {
            Some((width as u32, height as u32))
        } else {
            None
        },
{
    if !size_is_sane(width, height) {
        return None;
    }
    Some((width as u32, height as u32))
}

/// Why a buffer cannot be handed to the host.
#[derive(Clone, Copy, Debug, PartialEq, Eq, Structural)]
pub enum Unfit {
    /// It is not made of one plane, but of this many.
    Planes(usize),
    /// Its plane has no handle.
    NoPlane,
    /// Its plane has no stride.
    NoStride,
    /// Its stride is longer than the host can be told.
    Stride(u32),
}

/// Why a buffer made of so many planes, with the handle and the stride of the
/// first, cannot be handed to the host, if it cannot.
pub open spec fn unfit(planes: usize, handle: Option<i32>, stride: Option<u32>) -> Option<Unfit> {
    if planes != 1 {
        Some(Unfit::Planes(planes))
    } else if handle is None {
        Some(Unfit::NoPlane)
    } else if stride is None {
        Some(Unfit::NoStride)
    } else if stride->0 > i32::MAX {
        Some(Unfit::Stride(stride->0))
    } else {
        None
    }
}

/// The handle and the stride of a buffer, as the host takes them. The host
/// takes one plane and no more.
pub fn as_ffi(planes: usize, handle: Option<i32>, stride: Option<u32>) -> (r: Result<
    (i32, i32),
    Unfit,
>)
    ensures
        match r {
            Ok((fd, length)) => unfit(planes, handle, stride) is None && handle == Some(fd)
                && stride == Some(length as u32) && length >= 0,
            Err(why) => unfit(planes, handle, stride) == Some(why),
        },
{
    if planes != 1 {
        return Err(Unfit::Planes(planes));
    }
    let fd: i32 = match handle {
        None => {
            return Err(Unfit::NoPlane);
        },
        Some(fd) => fd,
    };
    let length: u32 = match stride {
        None => {
            return Err(Unfit::NoStride);
        },
        Some(length) => length,
    };
    if length > i32::MAX as u32 {
        return Err(Unfit::Stride(length));
    }
    Ok((fd, length as i32))
}

/// A buffer can be asked for of every size from a pixel to 8192 of them, either
/// way round, and of no other.
pub proof fn the_sizes_of_a_buffer(width: i32, height: i32)
    ensures
        is_sane(width, height) == is_sane(height, width),
        is_sane(width, height) ==> width > 0 && height > 0 && width <= 8192 && height <= 8192,
        width > 0 && height > 0 && width <= 8192 && height <= 8192 ==> is_sane(width, height),
{
}

/// A buffer can be handed to the host exactly where it is made of one plane that
/// has a handle and a stride the host can be told, and what is said of one that
/// cannot is the first of those that is wrong with it.
pub proof fn what_is_wrong_with_a_buffer(planes: usize, handle: Option<i32>, stride: Option<u32>)
    ensures
        unfit(planes, handle, stride) is None <==> planes == 1 && handle is Some && stride is Some
            && stride->0 <= 0x7fff_ffff,
        planes != 1 <==> unfit(planes, handle, stride) == Some(Unfit::Planes(planes)),
        planes == 1 && handle is None <==> unfit(planes, handle, stride) == Some(Unfit::NoPlane),
        planes == 1 && handle is Some && stride is None <==> unfit(planes, handle, stride) == Some(
            Unfit::NoStride,
        ),
        planes == 1 && handle is Some && stride is Some && stride->0 > 0x7fff_ffff ==> unfit(
            planes,
            handle,
            stride,
        ) == Some(Unfit::Stride(stride->0)),
{
}

} // verus!
