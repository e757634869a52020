use vstd::prelude::*;

verus! {

/// Fixed-point scale of a Lab channel: a channel value `v` stands for `v / LAB_SCALE`.
pub const LAB_SCALE: i32 = 1000;

/// Largest magnitude a Lab channel may have, in fixed-point units.
pub const LAB_LIMIT: i32 = 1048576;

/// An sRGB-encoded pixel, one byte per channel.
#[derive(Clone, Copy, Debug, PartialEq, Eq, Structural)]
pub struct Pixel {
    pub r: u8,
    pub g: u8,
    pub b: u8,
}

/// A CIE Lab colour in fixed point (see `LAB_SCALE`).
#[derive(Clone, Copy, Debug, PartialEq, Eq, Structural)]
pub struct LabColor {
    pub l: i32,
    pub a: i32,
    pub b: i32,
}

/// Channel `k` of a Lab colour: 0 is L, 1 is a, 2 is b.
pub open spec fn channel(c: LabColor, k: int) -> int {
    if k == 0 {
        c.l as int
    } else if k == 1 {
        c.a as int
    } else {
        c.b as int
    }
}

impl LabColor {
    /// Every channel lies within `[-LAB_LIMIT, LAB_LIMIT]`.
    pub open spec fn valid(self) -> bool {
        &&& -LAB_LIMIT <= self.l <= LAB_LIMIT
        &&& -LAB_LIMIT <= self.a <= LAB_LIMIT
        &&& -LAB_LIMIT <= self.b <= LAB_LIMIT
    }

    pub fn is_valid(&self) -> (r: bool)
        ensures
            r == self.valid(),
    {
        -LAB_LIMIT <= self.l && self.l <= LAB_LIMIT && -LAB_LIMIT <= self.a && self.a <= LAB_LIMIT
            && -LAB_LIMIT <= self.b && self.b <= LAB_LIMIT
    }
}

/// Lightness of `light`, chromaticity (a, b) of `chroma`.
pub open spec fn with_lightness_of(light: LabColor, chroma: LabColor) -> LabColor {
    LabColor { l: light.l, a: chroma.a, b: chroma.b }
}

/// Keeps the lightness of `light` and takes the chromaticity of `chroma`:
/// detail stays, colour changes.
pub fn transfer_luminance(light: &LabColor, chroma: &LabColor) -> (c: LabColor)
    ensures
        c == with_lightness_of(*light, *chroma),
        light.valid() && chroma.valid() ==> c.valid(),
{
    LabColor { l: light.l, a: chroma.a, b: chroma.b }
}

/// The cache key of a pixel: its three bytes packed as `0xRRGGBB`.
pub open spec fn pixel_key(p: Pixel) -> u32 {
    (p.r as int * 65536 + p.g as int * 256 + p.b as int) as u32
}

/// Packs a pixel's bytes into its cache key.
pub fn key_of(p: &Pixel) -> (k: u32)
    ensures
        k == pixel_key(*p),
        k < 16777216,
{
    (p.r as u32) * 65536 + (p.g as u32) * 256 + (p.b as u32)
}

/// Distinct pixels have distinct keys.
pub proof fn lemma_pixel_key_injective(p: Pixel, q: Pixel)
    ensures
        pixel_key(p) == pixel_key(q) ==> p == q,
{
}

} // verus!
