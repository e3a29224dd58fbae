use vstd::prelude::*;

verus! {

/// An RGBA color. Each channel is an 8-bit value; `0` is none of the
/// channel, `255` is the full channel. The alpha channel `a` is the
/// opacity: `0` is fully transparent, `255` is fully opaque.
#[derive(Clone, Copy, PartialEq, Eq, Structural, Debug)]
pub struct Color {
    pub r: u8,
    pub g: u8,
    pub b: u8,
    pub a: u8,
}

/// One channel of the channel-wise product of two colors: the product of
/// the channels, renormalized to `0..=255` (truncating division).
pub open spec fn mul_channel(x: int, y: int) -> int {
    (x * y) / 255
}

/// A color is fully transparent exactly when its alpha channel is zero.
pub open spec fn spec_is_transparent(c: Color) -> bool {
    c.a == 0
}

proof fn lemma_mul_channel_bounds(x: int, y: int)
    requires
        0 <= x <= 255,
        0 <= y <= 255,
    ensures
        0 <= mul_channel(x, y) <= 255,
{
    assert(0 <= x * y <= 255 * 255) by (nonlinear_arith)
        requires
            0 <= x <= 255,
            0 <= y <= 255,
    ;
}

impl Color {
    /// Builds a color from four 8-bit channel values.
    pub fn rgba_u8(r: u8, g: u8, b: u8, a: u8) -> (c: Color)
        ensures
            c == (Color { r, g, b, a }),
    {
        Color { r, g, b, a }
    }

    /// Opaque white, the default fill and tint color.
    pub fn white() -> (c: Color)
        ensures
            c == (Color { r: 255u8, g: 255u8, b: 255u8, a: 255u8 }),
    {
        Color { r: 255, g: 255, b: 255, a: 255 }
    }

    /// Fully transparent black, the default outline color.
    pub fn transparent() -> (c: Color)
        ensures
            c == (Color { r: 0u8, g: 0u8, b: 0u8, a: 0u8 }),
    {
        Color { r: 0, g: 0, b: 0, a: 0 }
    }

    /// The alpha channel.
    pub fn a(&self) -> (a: u8)
        ensures
            a == self.a,
    {
        self.a
    }

    /// Replaces the alpha channel, keeping the color channels.
    pub fn set_a(&mut self, a: u8)
        ensures
            *final(self) == (Color { a, ..*old(self) }),
    {
        self.a = a;
    }

    /// What [`Color::mul`] returns: the channel-wise product.
    pub open spec fn spec_mul(self, rhs: Color) -> Color {
        Color {
            r: mul_channel(self.r as int, rhs.r as int) as u8,
            g: mul_channel(self.g as int, rhs.g as int) as u8,
            b: mul_channel(self.b as int, rhs.b as int) as u8,
            a: mul_channel(self.a as int, rhs.a as int) as u8,
        }
    }

    /// Channel-wise multiplication, used for blit tinting: each channel of
    /// the result is the renormalized product of the operands' channels.
    pub fn mul(self, rhs: Color) -> (c: Color)
        ensures
            c == self.spec_mul(rhs),
    {
        proof {
            lemma_mul_channel_bounds(self.r as int, rhs.r as int);
            lemma_mul_channel_bounds(self.g as int, rhs.g as int);
            lemma_mul_channel_bounds(self.b as int, rhs.b as int);
            lemma_mul_channel_bounds(self.a as int, rhs.a as int);
        }
        Color {
            r: ((self.r as u32 * rhs.r as u32) / 255) as u8,
            g: ((self.g as u32 * rhs.g as u32) / 255) as u8,
            b: ((self.b as u32 * rhs.b as u32) / 255) as u8,
            a: ((self.a as u32 * rhs.a as u32) / 255) as u8,
        }
    }

    /// Tests whether the color is fully transparent (alpha exactly zero).
    pub fn is_transparent(&self) -> (t: bool)
        ensures
            t == spec_is_transparent(*self),
    {
        self.a == 0
    }
}

/// Multiplying by opaque white changes nothing: white is the unit of the
/// channel-wise product.
pub proof fn lemma_mul_white_identity(c: Color)
    ensures
        c.spec_mul(Color { r: 255u8, g: 255u8, b: 255u8, a: 255u8 }) == c,
{
    assert(mul_channel(c.r as int, 255) == c.r as int);
    assert(mul_channel(c.g as int, 255) == c.g as int);
    assert(mul_channel(c.b as int, 255) == c.b as int);
    assert(mul_channel(c.a as int, 255) == c.a as int);
}

/// Multiplying by a fully transparent tint yields a fully transparent color.
pub proof fn lemma_mul_transparent(c: Color, tint: Color)
    requires
        tint.a == 0,
    ensures
        spec_is_transparent(c.spec_mul(tint)),
{
    assert(mul_channel(c.a as int, 0) == 0);
}

} // verus!
