//! Frame payload types exchanged over the channel by video producers: a
//! planar YUV image, either borrowing its planes (for zero-copy receives)
//! or owning them.

use vstd::prelude::*;

verus! {

/// The dimensions and per-plane strides of a planar YUV image.
#[derive(Clone, Copy, Debug, PartialEq, Eq, Structural)]
pub struct YuvFrameInfo {
    pub width: u32,
    pub height: u32,
    pub y_stride: u32,
    pub u_stride: u32,
    pub v_stride: u32,
}

/// A planar YUV image whose pixel planes borrow their bytes, as a
/// zero-copy receive yields them.
pub struct YuvFrame<'a> {
    pub info: YuvFrameInfo,
    pub y_pixels: &'a [u8],
    pub u_pixels: &'a [u8],
    pub v_pixels: &'a [u8],
}

/// A planar YUV image that owns its pixel planes.
pub struct OwnedYuvFrame {
    pub info: YuvFrameInfo,
    pub y_pixels: Vec<u8>,
    pub u_pixels: Vec<u8>,
    pub v_pixels: Vec<u8>,
}

} // verus!
