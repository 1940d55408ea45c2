use vstd::prelude::*;

verus! {

/// A color of the extracted palette.
#[derive(Copy, Clone, PartialEq, Eq, Structural, Debug)]
pub struct Color {
    /// The red channel.
    pub r: u8,
    /// The green channel.
    pub g: u8,
    /// The blue channel.
    pub b: u8,
}

impl Color {
    /// Creates a color from its three channels.
    pub fn new(r: u8, g: u8, b: u8) -> (c: Color)
        ensures
            c == (Color { r, g, b }),
    {
        Color { r, g, b }
    }
}

/// One of the three axes of the color cube.
#[derive(Copy, Clone, PartialEq, Eq, Structural, Debug)]
pub enum ColorChannel {
    R,
    G,
    B,
}

/// A pixel sample read from a buffer.
#[derive(Copy, Clone, PartialEq, Eq, Structural, Debug)]
pub struct Pixel {
    pub r: u8,
    pub g: u8,
    pub b: u8,
    pub a: u8,
}

/// Alpha above which a pixel counts as opaque.
pub open spec fn opaque_spec(p: Pixel) -> bool {
    p.a > 125
}

/// A pixel is white when each of its color channels is above 250.
pub open spec fn white_spec(p: Pixel) -> bool {
    p.r > 250 && p.g > 250 && p.b > 250
}

impl Pixel {
    pub fn new_rgba(r: u8, g: u8, b: u8, a: u8) -> (p: Pixel)
        ensures
            p == (Pixel { r, g, b, a }),
    {
        Pixel { r, g, b, a }
    }

    /// A pixel without an alpha channel is fully opaque.
    pub fn new_rgb(r: u8, g: u8, b: u8) -> (p: Pixel)
        ensures
            p == (Pixel { r, g, b, a: 255 }),
    {
        Pixel { r, g, b, a: 255 }
    }

    pub fn is_white(&self) -> (w: bool)
        ensures
            w == white_spec(*self),
    {
        self.r > 250 && self.g > 250 && self.b > 250
    }

    pub fn is_opaque(&self) -> (o: bool)
        ensures
            o == opaque_spec(*self),
    {
        self.a > 125
    }
}

} // verus!
