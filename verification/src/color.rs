//! Color type.

use vstd::prelude::*;

verus! {

/// A 32-bit color value.
#[derive(Clone, Copy, Debug, Default, Eq, Hash, Ord, PartialEq, PartialOrd, Structural)]
pub struct Color {
    /// The red channel value (0-255).
    pub r: u8,
    /// The green channel value (0-255).
    pub g: u8,
    /// The blue channel value (0-255).
    pub b: u8,
    /// The alpha channel value (0-255).
    pub a: u8,
}

/// The number `0xRRGGBBAA` made of four channel values.
pub open spec fn packed_rgba(r: u8, g: u8, b: u8, a: u8) -> int {
    r * 0x100_0000 + g * 0x1_0000 + b * 0x100 + a
}

/// The four channels `(r, g, b, a)` of a number read as `0xRRGGBBAA`.
pub open spec fn unpacked_rgba(n: u32) -> (u8, u8, u8, u8) {
    (
        (n / 0x100_0000) as u8,
        ((n / 0x1_0000) % 0x100) as u8,
        ((n / 0x100) % 0x100) as u8,
        (n % 0x100) as u8,
    )
}

/// Pack four channels into `0xRRGGBBAA`.
pub fn pack_rgba(r: u8, g: u8, b: u8, a: u8) -> (n: u32)
    ensures
        n == packed_rgba(r, g, b, a),
{
    assert(r * 0x100_0000 + g * 0x1_0000 + b * 0x100 + a <= u32::MAX) by (nonlinear_arith)
        requires r <= 255, g <= 255, b <= 255, a <= 255;
    assert(r * 0x100_0000 >= 0 && g * 0x1_0000 >= 0 && b * 0x100 >= 0) by (nonlinear_arith);
    let rs = (r as u32) << 24;
    let gs = (g as u32) << 16;
    let bs = (b as u32) << 8;
    assert(rs == r * 0x100_0000) by (bit_vector)
        requires rs == (r as u32) << 24;
    assert(gs == g * 0x1_0000) by (bit_vector)
        requires gs == (g as u32) << 16;
    assert(bs == b * 0x100) by (bit_vector)
        requires bs == (b as u32) << 8;
    let mut color = rs;
    color += gs;
    color += bs;
    color += a as u32;
    color
}

/// Split `0xRRGGBBAA` into its four channels.
pub fn unpack_rgba(n: u32) -> (c: (u8, u8, u8, u8))
    ensures
        c == unpacked_rgba(n),
{
    assert((n >> 24) as u8 == (n / 0x100_0000) as u8) by (bit_vector);
    assert((n >> 16) as u8 == ((n / 0x1_0000) % 0x100) as u8) by (bit_vector);
    assert((n >> 8) as u8 == ((n / 0x100) % 0x100) as u8) by (bit_vector);
    assert(n as u8 == (n % 0x100) as u8) by (bit_vector);
    ((n >> 24) as u8, (n >> 16) as u8, (n >> 8) as u8, n as u8)
}

/// Unpacking a packed color gives back its channels.
pub proof fn lemma_unpack_pack(r: u8, g: u8, b: u8, a: u8)
    ensures
        0 <= packed_rgba(r, g, b, a) <= u32::MAX,
        unpacked_rgba(packed_rgba(r, g, b, a) as u32) == (r, g, b, a),
{
    let n = packed_rgba(r, g, b, a);
    assert(0 <= n <= u32::MAX);
    assert(n / 0x100_0000 == r as int) by (nonlinear_arith)
        requires n == r * 0x100_0000 + g * 0x1_0000 + b * 0x100 + a, 0 <= g < 256, 0 <= b < 256, 0 <= a < 256;
    assert(n / 0x1_0000 == r * 0x100 + g) by (nonlinear_arith)
        requires n == r * 0x100_0000 + g * 0x1_0000 + b * 0x100 + a, 0 <= b < 256, 0 <= a < 256;
    assert((r * 0x100 + g) % 0x100 == g as int) by (nonlinear_arith)
        requires 0 <= g < 256, 0 <= r;
    assert(n / 0x100 == r * 0x1_0000 + g * 0x100 + b) by (nonlinear_arith)
        requires n == r * 0x100_0000 + g * 0x1_0000 + b * 0x100 + a, 0 <= a < 256;
    assert((r * 0x1_0000 + g * 0x100 + b) % 0x100 == b as int) by (nonlinear_arith)
        requires 0 <= b < 256, 0 <= r, 0 <= g;
    assert(n % 0x100 == a as int) by (nonlinear_arith)
        requires n == r * 0x100_0000 + g * 0x1_0000 + b * 0x100 + a, 0 <= a < 256, 0 <= r, 0 <= g, 0 <= b;
}

/// Packing the channels of a number gives back the number.
pub proof fn lemma_pack_unpack(n: u32)
    ensures
        ({
            let (r, g, b, a) = unpacked_rgba(n);
            packed_rgba(r, g, b, a) == n
        }),
{
    let (r, g, b, a) = unpacked_rgba(n);
    assert(r == n / 0x100_0000);
    assert(packed_rgba(r, g, b, a) == n as int) by (nonlinear_arith)
        requires
            r == n / 0x100_0000,
            g == (n / 0x1_0000) % 0x100,
            b == (n / 0x100) % 0x100,
            a == n % 0x100,
            0 <= n <= u32::MAX,
    {
        assert(n == (n / 0x100) * 0x100 + n % 0x100);
        assert(n / 0x100 == (n / 0x1_0000) * 0x100 + (n / 0x100) % 0x100);
        assert(n / 0x1_0000 == (n / 0x100_0000) * 0x100 + (n / 0x1_0000) % 0x100);
    }
}

impl Color {
    /// A color with no values for its channels.
    pub fn none() -> (c: Self)
        ensures
            c == (Color { r: 0, g: 0, b: 0, a: 0 }),
    {
        Self { r: 0, g: 0, b: 0, a: 0 }
    }

    /// Create a new color with the provided channel values.
    pub fn new(r: u8, g: u8, b: u8, a: u8) -> (c: Self)
        ensures
            c == (Color { r, g, b, a }),
    {
        Self { r, g, b, a }
    }

    /// Pack this color into a `u32` as `0xRRGGBBAA`.
    pub fn to_u32(&self) -> (n: u32)
        ensures
            n == packed_rgba(self.r, self.g, self.b, self.a),
    {
        pack_rgba(self.r, self.g, self.b, self.a)
    }

    /// Build a color from a `u32` in the form of `0xRRGGBBAA`.
    pub fn from_u32(color: u32) -> (c: Self)
        ensures
            (c.r, c.g, c.b, c.a) == unpacked_rgba(color),
    {
        let (r, g, b, a) = unpack_rgba(color);
        Self { r, g, b, a }
    }

    /// Alter this color's red channel value.
    pub fn with_red(self, red: u8) -> (c: Self)
        ensures
            c == (Color { r: red, ..self }),
    {
        Self { r: red, ..self }
    }

    /// Alter this color's green channel value.
    pub fn with_green(self, green: u8) -> (c: Self)
        ensures
            c == (Color { g: green, ..self }),
    {
        Self { g: green, ..self }
    }

    /// Alter this color's blue channel value.
    pub fn with_blue(self, blue: u8) -> (c: Self)
        ensures
            c == (Color { b: blue, ..self }),
    {
        Self { b: blue, ..self }
    }

    /// Alter this color's alpha channel value.
    pub fn with_alpha(self, alpha: u8) -> (c: Self)
        ensures
            c == (Color { a: alpha, ..self }),
    {
        Self { a: alpha, ..self }
    }
}

/// Building a color from its packed form gives back the color, and packing the color built from
/// a number gives back the number.
pub proof fn lemma_color_u32_round_trip(c: Color, n: u32)
    ensures
        unpacked_rgba(packed_rgba(c.r, c.g, c.b, c.a) as u32) == (c.r, c.g, c.b, c.a),
        ({
            let (r, g, b, a) = unpacked_rgba(n);
            packed_rgba(r, g, b, a) == n
        }),
{
    lemma_unpack_pack(c.r, c.g, c.b, c.a);
    lemma_pack_unpack(n);
}

} // verus!
