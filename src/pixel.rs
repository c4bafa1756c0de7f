//! 8-bit colors and the per-pixel results that workers hand to the writer.
use vstd::prelude::*;

verus! {

/// An 8-bit RGB color.
#[derive(Clone, Copy, Debug, PartialEq, Eq, Structural)]
pub struct RBG {
    pub r: u8,
    pub g: u8,
    pub b: u8,
}

impl RBG {
    pub fn new(r: u8, g: u8, b: u8) -> (c: RBG)
        ensures
            c == (RBG { r, g, b }),
    {
        RBG { r, g, b }
    }

    /// Black, the color of an unwritten pixel.
    pub fn black() -> (c: RBG)
        ensures
            c == (RBG { r: 0, g: 0, b: 0 }),
    {
        RBG { r: 0, g: 0, b: 0 }
    }
}

/// One finished pixel: its coordinates and its color.
#[derive(Clone, Copy, Debug, PartialEq, Eq, Structural)]
pub struct Pixel {
    pub x: u32,
    pub y: u32,
    pub color: RBG,
}

impl Pixel {
    pub fn new(x: u32, y: u32, r: u8, g: u8, b: u8) -> (p: Pixel)
        ensures
            p == (Pixel { x, y, color: RBG { r, g, b } }),
    {
        Pixel { x, y, color: RBG { r, g, b } }
    }
}

} // verus!
