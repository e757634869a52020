use vstd::prelude::*;

use crate::color::Pixel;

verus! {

/// A blend factor of `BLEND_SCALE` stands for 1 (fully stylized).
pub const BLEND_SCALE: u32 = 10000;

/// Linear interpolation from `original` (factor 0) to `stylized` (factor
/// `BLEND_SCALE`), rounded to the nearest integer, halves up.
pub open spec fn blend_channel(stylized: int, original: int, factor: int) -> int {
    (original * (BLEND_SCALE - factor) + stylized * factor + BLEND_SCALE / 2) / BLEND_SCALE as int
}

/// Both pixels mixed channel by channel.
pub open spec fn blended(stylized: Pixel, original: Pixel, factor: int) -> Pixel {
    Pixel {
        r: blend_channel(stylized.r as int, original.r as int, factor) as u8,
        g: blend_channel(stylized.g as int, original.g as int, factor) as u8,
        b: blend_channel(stylized.b as int, original.b as int, factor) as u8,
    }
}

proof fn lemma_blend_channel_range(s: int, o: int, f: int)
    requires
        0 <= s <= 255,
        0 <= o <= 255,
        0 <= f <= BLEND_SCALE,
    ensures
        0 <= blend_channel(s, o, f) <= 255,
{
    let n = o * (BLEND_SCALE - f) + s * f + BLEND_SCALE / 2;
    assert(0 <= n <= 255 * BLEND_SCALE + BLEND_SCALE / 2) by (nonlinear_arith)
        requires
            0 <= s <= 255,
            0 <= o <= 255,
            0 <= f <= BLEND_SCALE,
            n == o * (BLEND_SCALE - f) + s * f + BLEND_SCALE / 2,
    ;
    vstd::arithmetic::div_mod::lemma_div_is_ordered(
        n,
        255 * BLEND_SCALE + BLEND_SCALE / 2,
        BLEND_SCALE as int,
    );
    vstd::arithmetic::div_mod::lemma_div_pos_is_pos(n, BLEND_SCALE as int);
    vstd::arithmetic::div_mod::lemma_div_multiples_vanish_fancy(
        255,
        (BLEND_SCALE / 2) as int,
        BLEND_SCALE as int,
    );
    assert(BLEND_SCALE * 255 == 255 * BLEND_SCALE);
}

fn blend_step(s: u8, o: u8, factor: u32) -> (r: u8)
    requires
        factor <= BLEND_SCALE,
    ensures
        r == blend_channel(s as int, o as int, factor as int),
{
    proof {
        lemma_blend_channel_range(s as int, o as int, factor as int);
        assert(0 <= (o as int) * (BLEND_SCALE - factor) <= 255 * BLEND_SCALE) by (nonlinear_arith)
            requires
                factor <= BLEND_SCALE,
        ;
        assert(0 <= (s as int) * factor <= 255 * BLEND_SCALE) by (nonlinear_arith)
            requires
                factor <= BLEND_SCALE,
        ;
    }
    let n: u32 = (o as u32) * (BLEND_SCALE - factor) + (s as u32) * factor + BLEND_SCALE / 2;
    (n / BLEND_SCALE) as u8
}

/// Mixes the stylized pixel with the original by `factor`, per channel; the
/// result stays within 0..=255.
pub fn blend_pixel(stylized: &Pixel, original: &Pixel, factor: u32) -> (p: Pixel)
    requires
        factor <= BLEND_SCALE,
    ensures
        p == blended(*stylized, *original, factor as int),
{
    Pixel {
        r: blend_step(stylized.r, original.r, factor),
        g: blend_step(stylized.g, original.g, factor),
        b: blend_step(stylized.b, original.b, factor),
    }
}

proof fn lemma_blend_channel_extremes(s: int, o: int)
    requires
        0 <= s <= 255,
        0 <= o <= 255,
    ensures
        blend_channel(s, o, 0) == o,
        blend_channel(s, o, BLEND_SCALE as int) == s,
{
    assert(o * (BLEND_SCALE - 0) + s * 0 + BLEND_SCALE / 2 == BLEND_SCALE * o + BLEND_SCALE / 2)
        by (nonlinear_arith);
    assert(o * (BLEND_SCALE - BLEND_SCALE) + s * BLEND_SCALE + BLEND_SCALE / 2 == BLEND_SCALE * s
        + BLEND_SCALE / 2) by (nonlinear_arith);
    vstd::arithmetic::div_mod::lemma_div_multiples_vanish_fancy(
        o,
        (BLEND_SCALE / 2) as int,
        BLEND_SCALE as int,
    );
    vstd::arithmetic::div_mod::lemma_div_multiples_vanish_fancy(
        s,
        (BLEND_SCALE / 2) as int,
        BLEND_SCALE as int,
    );
}

/// A blend factor of zero gives back the original pixel exactly; a factor of
/// one gives the stylized pixel exactly.
pub proof fn lemma_blend_extremes(stylized: Pixel, original: Pixel)
    ensures
        blended(stylized, original, 0) == original,
        blended(stylized, original, BLEND_SCALE as int) == stylized,
{
    lemma_blend_channel_extremes(stylized.r as int, original.r as int);
    lemma_blend_channel_extremes(stylized.g as int, original.g as int);
    lemma_blend_channel_extremes(stylized.b as int, original.b as int);
}

} // verus!
