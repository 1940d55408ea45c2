use vstd::prelude::*;

use crate::types::Pixel;

verus! {

/// How the pixels of a buffer are laid out.
#[derive(Copy, Clone, PartialEq, Eq, Structural, Debug)]
pub enum PixelEncoding {
    /// Three bytes per pixel: red, green, blue.
    Rgb,
    /// Four bytes per pixel: red, green, blue, alpha.
    Rgba,
}

impl PixelEncoding {
    /// Bytes per pixel.
    pub open spec fn stride_spec(self) -> nat {
        match self {
            PixelEncoding::Rgb => 3,
            PixelEncoding::Rgba => 4,
        }
    }

    /// The pixel at position `idx` of `buffer`.
    pub open spec fn pixel_at(self, buffer: Seq<u8>, idx: int) -> Pixel {
        let o = idx * self.stride_spec();
        match self {
            PixelEncoding::Rgb => Pixel { r: buffer[o], g: buffer[o + 1], b: buffer[o + 2], a: 255 },
            PixelEncoding::Rgba => Pixel {
                r: buffer[o],
                g: buffer[o + 1],
                b: buffer[o + 2],
                a: buffer[o + 3],
            },
        }
    }

    /// Gets the number of bytes that represent an entire pixel.
    pub fn stride(&self) -> (s: u8)
        ensures
            s == self.stride_spec(),
    {
        match self {
            PixelEncoding::Rgb => 3,
            PixelEncoding::Rgba => 4,
        }
    }

    /// Extracts the pixel at position `idx` of `buffer`.
    pub fn extract_pixel(&self, buffer: &[u8], idx: usize) -> (p: Pixel)
        requires
            (idx + 1) * self.stride_spec() <= buffer@.len(),
        ensures
            p == self.pixel_at(buffer@, idx as int),
    {
        let stride = self.stride();
        // the offset stays below the buffer's length, which fits in usize
        let len = buffer.len();
        assert(idx * (stride as int) < len) by (nonlinear_arith)
            requires
                (idx + 1) * (stride as int) <= len,
                stride >= 3,
        ;
        let offset = idx * stride as usize;
        match self {
            PixelEncoding::Rgb => Pixel::new_rgb(buffer[offset], buffer[offset + 1], buffer[offset + 2]),
            PixelEncoding::Rgba => Pixel::new_rgba(
                buffer[offset],
                buffer[offset + 1],
                buffer[offset + 2],
                buffer[offset + 3],
            ),
        }
    }
}

} // verus!
