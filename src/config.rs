use vstd::prelude::*;

verus! {

/// Bits of each channel kept in the quantized color cube.
pub const SIGNAL_BITS: u8 = 5;

/// Shift that turns a full 0..=255 channel value into a cube coordinate.
pub const RIGHT_SHIFT: u8 = 8 - SIGNAL_BITS;


/// Number of cells of the color cube (32 per channel).
pub const HISTOGRAM_SIZE: usize = 32768;

/// Number of cube coordinates along one channel.
pub const VBOX_LENGTH: usize = 32;

/// Ceiling on the number of steps of one refinement pass.
pub const MAX_ITERATIONS: u16 = 1000;

} // verus!
