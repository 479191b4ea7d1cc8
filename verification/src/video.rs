//! Pixel formats and the geometry of frames.
use vstd::prelude::*;

verus! {

/// Raw video formats. `Other` stands for a format that is never negotiated and carries its
/// number.
#[derive(Debug, PartialEq, Eq, Clone, Copy, Structural)]
pub enum VideoFormat {
    Rgbx,
    Xrgb,
    Bgrx,
    Xbgr,
    Rgba,
    Argb,
    Bgra,
    Abgr,
    Rgb,
    Bgr,
    Other(i32),
}

/// Position of the alpha byte within a pixel.
#[derive(Debug, PartialEq, Eq, Clone, Copy, Structural)]
pub enum AlphaPos {
    /// No alpha channel (RGB / BGR / RGBx / BGRx / xRGB / xBGR).
    Absent,
    /// Alpha is the 4th byte (RGBA / BGRA).
    Last,
    /// Alpha is the 1st byte (ARGB / ABGR).
    First,
}

impl VideoFormat {
    /// Where a pixel of this format has its alpha byte.
    pub open spec fn spec_alpha_pos(self) -> AlphaPos {
        if self == VideoFormat::Rgba || self == VideoFormat::Bgra {
            AlphaPos::Last
        } else if self == VideoFormat::Argb || self == VideoFormat::Abgr {
            AlphaPos::First
        } else {
            AlphaPos::Absent
        }
    }

    /// Where a pixel of this format has its alpha byte. The padding byte of RGBx, xRGB, BGRx and
    /// xBGR counts as opaque and is no alpha byte.
    pub fn alpha_pos(self) -> (pos: AlphaPos)
        ensures
            pos == self.spec_alpha_pos(),
            pos == AlphaPos::Last <==> self == VideoFormat::Rgba || self == VideoFormat::Bgra,
            pos == AlphaPos::First <==> self == VideoFormat::Argb || self == VideoFormat::Abgr,
    {
        match self {
            VideoFormat::Rgba | VideoFormat::Bgra => AlphaPos::Last,
            VideoFormat::Argb | VideoFormat::Abgr => AlphaPos::First,
            _ => AlphaPos::Absent,
        }
    }
}

impl AlphaPos {
    /// The offset of the alpha byte in a pixel of `pixel_stride` bytes.
    pub open spec fn offset(self, pixel_stride: int) -> Option<int> {
        match self {
            AlphaPos::Absent => None,
            AlphaPos::Last => Some(pixel_stride - 1),
            AlphaPos::First => Some(0),
        }
    }
}

/// Negotiated video: its format, its size in pixels, and plane 0 of it.
#[derive(Debug, PartialEq, Eq, Clone, Copy, Structural)]
pub struct VideoInfo {
    pub format: VideoFormat,
    pub width: u32,
    pub height: u32,
    /// Bytes per pixel (1..=4 for the accepted formats).
    pub pixel_stride: usize,
    /// Bytes from one row to the next, with padding.
    pub stride: usize,
}

impl VideoInfo {
    /// A pixel has a byte at least, and a row of pixels is addressable.
    pub open spec fn wf(self) -> bool {
        &&& 1 <= self.pixel_stride
        &&& self.width * self.pixel_stride <= usize::MAX
    }

    /// Whether a pixel has a byte at least, and a row of pixels is addressable.
    pub fn is_valid(&self) -> (valid: bool)
        ensures
            valid == self.wf(),
            valid <==> 1 <= self.pixel_stride && self.width * self.pixel_stride <= usize::MAX,
    {
        assert(0 <= self.width * self.pixel_stride <= u32::MAX * u64::MAX) by (nonlinear_arith)
            requires
                0 <= self.width <= u32::MAX,
                0 <= self.pixel_stride <= u64::MAX,
        ;
        self.pixel_stride >= 1 && self.width as u128 * self.pixel_stride as u128
            <= usize::MAX as u128
    }
}

/// A frame to transform in place. `plane` is the data of plane 0, or `None` where it could not
/// be accessed.
pub struct VideoFrame<'a> {
    pub format: VideoFormat,
    pub width: u32,
    pub height: u32,
    /// Bytes from one row of `plane` to the next, with padding.
    pub stride: usize,
    pub plane: Option<&'a mut [u8]>,
}

} // verus!
