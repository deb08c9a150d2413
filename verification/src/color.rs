//! Colors with three 8-bit components.

use vstd::prelude::*;

verus! {

/// A color with 8-bit red, green and blue components.
#[derive(Clone, Copy, Debug, PartialEq, Eq, Structural, Hash)]
pub struct Rgb {
    pub r: u8,
    pub g: u8,
    pub b: u8,
}

impl Rgb {
    /// The color with the components `r`, `g` and `b`.
    pub fn new(r: u8, g: u8, b: u8) -> (c: Rgb)
        ensures
            c == (Rgb { r, g, b }),
    {
        Rgb { r, g, b }
    }

    /// The square of the distance of the color from black.
    pub open spec fn norm_sqr_spec(self) -> u32 {
        (self.r * self.r + self.g * self.g + self.b * self.b) as u32
    }

    /// The square of the distance of the color from black.
    #[verifier::when_used_as_spec(norm_sqr_spec)]
    pub fn norm_sqr(self) -> (n: u32)
        ensures
            n == self.norm_sqr_spec(),
            n == self.r * self.r + self.g * self.g + self.b * self.b,
    {
        let r: u32 = self.r as u32;
        let g: u32 = self.g as u32;
        let b: u32 = self.b as u32;
        assert(r * r <= 255 * 255 && g * g <= 255 * 255 && b * b <= 255 * 255)
            by (nonlinear_arith)
            requires
                r <= 255,
                g <= 255,
                b <= 255,
        ;
        r * r + g * g + b * b
    }

    /// The color as one number: red in the highest of three bytes, blue in the lowest.
    pub open spec fn packed_spec(self) -> u64 {
        (self.r * 65536 + self.g * 256 + self.b) as u64
    }

    /// The color as one number: red in the highest of three bytes, blue in the lowest.
    #[verifier::when_used_as_spec(packed_spec)]
    pub fn packed(self) -> (k: u64)
        ensures
            k == self.packed_spec(),
    {
        (self.r as u64) * 65536 + (self.g as u64) * 256 + (self.b as u64)
    }
}

/// Two colors with the same number are the same color.
pub proof fn lemma_packed_injective(x: Rgb, y: Rgb)
    requires
        x.packed() == y.packed(),
    ensures
        x == y,
{
}

} // verus!
