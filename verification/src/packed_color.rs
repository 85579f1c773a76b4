//! Color type packed into a single number.

use vstd::prelude::*;
use crate::color::{pack_rgba, packed_rgba, unpack_rgba, unpacked_rgba};

verus! {

/// A 32-bit color value.
#[derive(Clone, Copy, Debug, Default, Eq, Hash, Ord, PartialEq, PartialOrd, Structural)]
pub struct Color {
    pub r: u8,
    pub g: u8,
    pub b: u8,
    pub a: u8,
}

impl Color {
    /// A color with no values for its channels.
    pub fn none() -> (c: Self)
        ensures
            c == (Color { r: 0, g: 0, b: 0, a: 0 }),
    {
        Self { r: 0, g: 0, b: 0, a: 0 }
    }

    /// Pack this color into a `u32` as `0xRRGGBBAA`.
    pub fn to_u32(&self) -> (n: u32)
        ensures
            n == packed_rgba(self.r, self.g, self.b, self.a),
    {
        pack_rgba(self.r, self.g, self.b, self.a)
    }

    /// Build a color from a `u32` in the form of `0xRRGGBBAA`.
    pub fn from_u32(color: u32) -> (c: Self)
        ensures
            (c.r, c.g, c.b, c.a) == unpacked_rgba(color),
    {
        let (r, g, b, a) = unpack_rgba(color);
        Self { r, g, b, a }
    }
}

} // verus!
