//! Colours with eight bits per channel.

use vstd::prelude::*;

verus! {

/// A colour as red, green and blue channels.
#[derive(Clone, Copy, Debug, PartialEq, Eq, Structural)]
pub struct Color {
    pub r: u8,
    pub g: u8,
    pub b: u8,
}

impl Color {
    /// The colour as one number: red in bits 16 to 23, green in bits 8 to
    /// 15, blue in bits 0 to 7.
    pub open spec fn packed(self) -> int {
        self.r * 65536 + self.g * 256 + self.b
    }

    /// Builds a colour from its three channels.
    pub fn new(r: u8, g: u8, b: u8) -> (c: Color)
        ensures
            c.r == r,
            c.g == g,
            c.b == b,
    {
        Color { r, g, b }
    }

    /// The colour with all channels at zero.
    pub fn black() -> (c: Color)
        ensures
            c.r == 0,
            c.g == 0,
            c.b == 0,
    {
        Color { r: 0, g: 0, b: 0 }
    }

    /// Packs the colour into the low 24 bits of a word, as
    /// `(r << 16) | (g << 8) | b`.
    pub fn to_u32(&self) -> (p: u32)
        ensures
            p == self.packed(),
            p == ((self.r as u32) << 16) | ((self.g as u32) << 8) | (self.b as u32),
            p < 0x100_0000,
    {
        let r: u32 = self.r as u32;
        let g: u32 = self.g as u32;
        let b: u32 = self.b as u32;
        assert(((r << 16) | (g << 8) | b) == r * 65536 + g * 256 + b) by (bit_vector)
            requires
                r < 256,
                g < 256,
                b < 256,
        ;
        (r << 16) | (g << 8) | b
    }
}

/// Two colours that pack to the same number are the same colour.
pub proof fn lemma_packed_injective(a: Color, b: Color)
    requires
        a.packed() == b.packed(),
    ensures
        a == b,
{
}

} // verus!
