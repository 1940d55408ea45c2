use vstd::prelude::*;

verus! {

/// Flat histogram index of the cube cell at coordinates `(r, g, b)`.
pub open spec fn index_of(r: int, g: int, b: int) -> int {
    r * 1024 + g * 32 + b
}

/// Maps quantized coordinates to their flat histogram index.
pub fn color_index_from(red: u8, green: u8, blue: u8) -> (r: u32)
    ensures
        r == index_of(red as int, green as int, blue as int),
{
    red as u32 * 1024 + green as u32 * 32 + blue as u32
}

} // verus!
