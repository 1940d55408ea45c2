//! Extraction of a color palette from raw RGB or RGBA pixel bytes by modified
//! median-cut quantization.
use vstd::prelude::*;

pub mod config;
pub mod guarantees;
pub mod histogram;
pub mod pixel_encoding;
pub mod quantize;
pub mod types;
pub mod util;
pub mod vbox;

pub use crate::histogram::create_histogram_and_vbox;
pub use crate::pixel_encoding::PixelEncoding;
pub use crate::quantize::extract_colors;
pub use crate::types::{Color, ColorChannel, Pixel};
pub use crate::util::color_index_from;
pub use crate::vbox::VBox;

verus! {

/// Sampling stride: every `quality`-th pixel is read. Defaults to 5.
pub struct Quality(u8);

impl Quality {
    pub closed spec fn level(self) -> u8 {
        self.0
    }

    /// Creates a sampling stride.
    pub fn new(quality: u8) -> (q: Quality)
        ensures
            q.level() == quality,
    {
        Quality(quality)
    }
}

impl Default for Quality {
    fn default() -> (q: Quality)
        ensures
            q.level() == 5,
    {
        Quality(5)
    }
}

/// Palette size asked for. Defaults to 10.
pub struct MaxColors(u8);

impl MaxColors {
    pub closed spec fn count(self) -> u8 {
        self.0
    }

    /// Creates a palette size.
    pub fn new(max_colors: u8) -> (m: MaxColors)
        ensures
            m.count() == max_colors,
    {
        MaxColors(max_colors)
    }
}

impl Default for MaxColors {
    fn default() -> (m: MaxColors)
        ensures
            m.count() == 10,
    {
        MaxColors(10)
    }
}

/// Pixels left out of the palette.
#[derive(Copy, Clone, PartialEq, Eq, Structural, Debug)]
pub enum PixelFilter {
    /// Every pixel counts.
    Off,
    /// White pixels are left out.
    White,
}

impl Default for PixelFilter {
    fn default() -> (f: PixelFilter)
        ensures
            f == PixelFilter::White,
    {
        PixelFilter::White
    }
}

/// Extracts a palette from `pixels` with the given options, most dominant
/// color first.
pub fn get_palette_with_options(
    pixels: &[u8],
    encoding: PixelEncoding,
    quality: Quality,
    max_colors: MaxColors,
    pixel_filter: PixelFilter,
) -> (r: Vec<Color>)
    requires
        quality.level() >= 1,
    ensures
        r@ == crate::quantize::palette(
            pixels@,
            encoding,
            quality.level() as int,
            max_colors.count() as int,
            pixel_filter == PixelFilter::White,
        ),
{
    extract_colors(pixels, encoding, quality.0, max_colors.0, pixel_filter == PixelFilter::White)
}

/// Extracts a palette from RGB `pixels` with a stride of 5, 10 colors and no
/// filter.
pub fn get_palette_rgb(pixels: &[u8]) -> (r: Vec<Color>)
    ensures
        r@ == crate::quantize::palette(pixels@, PixelEncoding::Rgb, 5, 10, false),
{
    get_palette_with_options(
        pixels,
        PixelEncoding::Rgb,
        Quality::default(),
        MaxColors::default(),
        PixelFilter::Off,
    )
}

} // verus!
