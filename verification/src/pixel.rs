//! Pixels: four 8-bit channels.

use vstd::prelude::*;

verus! {

/// One pixel: red, green, blue and alpha, each from 0 to 255.
#[derive(Clone, Copy, Debug, PartialEq, Eq, Structural)]
pub struct Pixel {
    pub r: u8,
    pub g: u8,
    pub b: u8,
    pub a: u8,
}

impl Pixel {
    /// Fully transparent black.
    pub open spec fn clear() -> Pixel {
        Pixel { r: 0, g: 0, b: 0, a: 0 }
    }

    /// A pixel from its four channels.
    pub fn new(r: u8, g: u8, b: u8, a: u8) -> (p: Pixel)
        ensures
            p == (Pixel { r, g, b, a }),
    {
        Pixel { r, g, b, a }
    }

    /// Fully transparent black, the colour of every cell that was never written.
    pub fn transparent() -> (p: Pixel)
        ensures
            p == Pixel::clear(),
    {
        Pixel { r: 0, g: 0, b: 0, a: 0 }
    }
}

} // verus!
