use vstd::prelude::*;

use std::collections::HashMap;

use crate::averaging::{div_trunc, window_average, window_end, window_mean, window_start};
use crate::blend::{blend_pixel, blended, BLEND_SCALE};
use crate::color::{channel, key_of, pixel_key, transfer_luminance, with_lightness_of, LabColor, Pixel};
use crate::dither::{dither, dithered, lemma_zero_dither_is_identity, Draw, DITHER_SCALE};
use crate::matching::ColorCache;
use crate::table::{
    all_valid, compute_integral_image, lemma_index_in_bounds, rect_sum, row_sum, table_fits,
};

verus! {

/// Every pixel has a cached palette match.
pub open spec fn cache_covers(cache: Map<u32, LabColor>, pixels: Seq<Pixel>) -> bool {
    forall|i: int| 0 <= i < pixels.len() ==> cache.contains_key(#[trigger] pixel_key(pixels[i]))
}

/// Stage-1 colour of a pixel: its cached palette match, dithered toward itself.
pub open spec fn stage_one_color(cache: Map<u32, LabColor>, p: Pixel, amount: int, d: Draw) -> LabColor {
    let m = cache[pixel_key(p)];
    dithered(m, m, amount, d)
}

/// Stage-1 image: every pixel replaced by its stage-1 colour.
pub open spec fn stage_one_image(
    pixels: Seq<Pixel>,
    cache: Map<u32, LabColor>,
    amount: int,
    draws: Seq<Draw>,
) -> Seq<LabColor> {
    Seq::new(pixels.len(), |i: int| stage_one_color(cache, pixels[i], amount, draws[i]))
}

/// Stage-3 colour of the pixel at `(x, y)`: its own lightness, the
/// chromaticity of the windowed mean of the stage-1 image around it.
pub open spec fn stylized_color(
    stage_one: Seq<LabColor>,
    w: int,
    h: int,
    original: LabColor,
    x: int,
    y: int,
    radius: int,
) -> LabColor {
    with_lightness_of(original, window_mean(stage_one, w, h, x, y, radius))
}

/// The first `n` pixels' colours that `cache` lacks, each once, in order of
/// first appearance.
pub open spec fn first_uncached(pixels: Seq<Pixel>, cache: Map<u32, LabColor>, n: int) -> Seq<Pixel>
    decreases n,
{
    if n <= 0 {
        Seq::<Pixel>::empty()
    } else {
        let pre = first_uncached(pixels, cache, n - 1);
        let p = pixels[n - 1];
        if !cache.contains_key(pixel_key(p)) && !pixels.subrange(0, n - 1).contains(p) {
            pre.push(p)
        } else {
            pre
        }
    }
}

/// The pixels whose colour the cache lacks, each once, in order of first
/// appearance. These are the colours whose match must still be computed.
pub fn uncached_pixels(pixels: &Vec<Pixel>, cache: &ColorCache) -> (r: Vec<Pixel>)
    ensures
        r@ == first_uncached(pixels@, cache@, pixels@.len() as int),
        forall|i: int|
            0 <= i < pixels@.len() && !cache@.contains_key(pixel_key(pixels@[i])) ==> r@.contains(
                #[trigger] pixels@[i],
            ),
        forall|j: int|
            0 <= j < r@.len() ==> !cache@.contains_key(pixel_key(#[trigger] r@[j]))
                && pixels@.contains(r@[j]),
        forall|j1: int, j2: int| 0 <= j1 < j2 < r@.len() ==> r@[j1] != r@[j2],
{
    broadcast use vstd::std_specs::hash::group_hash_axioms;

    let mut seen: HashMap<u32, usize> = HashMap::new();
    let mut r: Vec<Pixel> = Vec::new();
    let mut i: usize = 0;
    while i < pixels.len()
        invariant
            0 <= i <= pixels@.len(),
            forall|k: u32|
                seen@.contains_key(k) ==> seen@[k] < r@.len() && pixel_key(r@[seen@[k] as int])
                    == k,
            forall|j: int| 0 <= j < r@.len() ==> seen@.contains_key(pixel_key(#[trigger] r@[j])),
            forall|i2: int|
                0 <= i2 < i && !cache@.contains_key(pixel_key(pixels@[i2])) ==> r@.contains(
                    #[trigger] pixels@[i2],
                ),
            forall|j: int|
                0 <= j < r@.len() ==> !cache@.contains_key(pixel_key(#[trigger] r@[j]))
                    && pixels@.contains(r@[j]),
            forall|j1: int, j2: int| 0 <= j1 < j2 < r@.len() ==> r@[j1] != r@[j2],
            r@ == first_uncached(pixels@, cache@, i as int),
            forall|j: int| 0 <= j < r@.len() ==> pixels@.subrange(0, i as int).contains(#[trigger] r@[j]),
        decreases pixels@.len() - i,
    {
        let ghost pre = pixels@.subrange(0, i as int);
        proof {
            assert(pixels@.subrange(0, i + 1).drop_last() =~= pre);
            assert(pixels@.subrange(0, i as int) =~= pre);
            let q = pixels@[i as int];
            if !cache@.contains_key(pixel_key(q)) && pre.contains(q) {
                let i2 = choose|i2: int| 0 <= i2 < pre.len() && pre[i2] == q;
                assert(pixels@[i2] == q);
                assert(r@.contains(pixels@[i2]));
            }
            if r@.contains(q) {
                let j = choose|j: int| 0 <= j < r@.len() && r@[j] == q;
                assert(pre.contains(r@[j]));
            }
        }
        let p = pixels[i];
        let ghost old_len = r@.len();
        let ghost old_r = r@;
        let k = key_of(&p);
        if !cache.contains(&p) {
            match seen.get(&k) {
                Some(idx) => {
                    proof {
                        let j = *idx as int;
                        crate::color::lemma_pixel_key_injective(r@[j], p);
                        assert(r@[j] == p);
                    }
                },
                None => {
                    proof {
                        assert forall|j: int| 0 <= j < old_r.len() implies old_r[j] != p by {
                            assert(seen@.contains_key(pixel_key(old_r[j])));
                        }
                    }
                    seen.insert(k, r.len());
                    r.push(p);
                    proof {
                        assert(r@[old_r.len() as int] == p);
                        assert forall|i2: int|
                            0 <= i2 <= i && !cache@.contains_key(pixel_key(pixels@[i2]))
                                implies r@.contains(#[trigger] pixels@[i2]) by {
                            if i2 < i {
                                assert(old_r.contains(pixels@[i2]));
                                let j = choose|j: int| 0 <= j < old_r.len() && old_r[j] == pixels@[i2];
                                assert(r@[j] == pixels@[i2]);
                            } else {
                                assert(r@[old_r.len() as int] == pixels@[i2]);
                            }
                        }
                        assert forall|j: int| 0 <= j < r@.len() implies !cache@.contains_key(
                            pixel_key(#[trigger] r@[j]),
                        ) && pixels@.contains(r@[j]) by {
                            if j < old_r.len() {
                                assert(old_r[j] == r@[j]);
                            } else {
                                assert(pixels@[i as int] == r@[j]);
                            }
                        }
                        assert forall|j: int| 0 <= j < r@.len() implies seen@.contains_key(
                            pixel_key(#[trigger] r@[j]),
                        ) by {
                            if j < old_r.len() {
                                assert(old_r[j] == r@[j]);
                            }
                        }
                    }
                },
            }
        }
        proof {
            if !cache@.contains_key(pixel_key(pixels@[i as int])) {
                assert(r@.contains(pixels@[i as int]));
            }
            let next = pixels@.subrange(0, i + 1);
            assert forall|j: int| 0 <= j < r@.len() implies next.contains(#[trigger] r@[j]) by {
                if j < old_len {
                    assert(pre.contains(r@[j]));
                    let i2 = choose|i2: int| 0 <= i2 < pre.len() && pre[i2] == r@[j];
                    assert(next[i2] == r@[j]);
                } else {
                    assert(next[i as int] == r@[j]);
                }
            }
        }
        i = i + 1;
    }
    proof {
        assert(pixels@.subrange(0, pixels@.len() as int) =~= pixels@);
    }
    r
}

/// Stage 1: each pixel takes its cached palette match, dithered by `amount`
/// with its own random draw.
pub fn stage_one(pixels: &Vec<Pixel>, cache: &ColorCache, amount: u32, draws: &Vec<Draw>) -> (out:
    Vec<LabColor>)
    requires
        cache.wf(),
        cache_covers(cache@, pixels@),
        draws@.len() == pixels@.len(),
        forall|i: int| 0 <= i < draws@.len() ==> (#[trigger] draws@[i]).valid(),
        amount <= DITHER_SCALE,
    ensures
        out@ == stage_one_image(pixels@, cache@, amount as int, draws@),
        all_valid(out@),
{
    let mut out: Vec<LabColor> = Vec::new();
    let mut i: usize = 0;
    while i < pixels.len()
        invariant
            0 <= i <= pixels@.len(),
            cache.wf(),
            cache_covers(cache@, pixels@),
            draws@.len() == pixels@.len(),
            forall|j: int| 0 <= j < draws@.len() ==> (#[trigger] draws@[j]).valid(),
            amount <= DITHER_SCALE,
            out@.len() == i,
            forall|j: int|
                0 <= j < i ==> #[trigger] out@[j] == stage_one_color(
                    cache@,
                    pixels@[j],
                    amount as int,
                    draws@[j],
                ),
            all_valid(out@),
        decreases pixels@.len() - i,
    {
        proof {
            assert(cache@.contains_key(pixel_key(pixels@[i as int])));
        }
        let m = match cache.get(&pixels[i]) {
            Some(v) => v,
            None => {
                proof {
                    assert(false);
                }
                LabColor { l: 0, a: 0, b: 0 }
            },
        };
        let c = dither(&m, &m, amount, &draws[i]);
        out.push(c);
        i = i + 1;
    }
    proof {
        assert(out@ =~= stage_one_image(pixels@, cache@, amount as int, draws@));
    }
    out
}

/// Stages 2 and 3: builds the summed-area table of the stage-1 image, then
/// gives each pixel its own lightness with the chromaticity of the windowed
/// mean around it.
pub fn stylize(
    width: usize,
    height: usize,
    stage_one: &Vec<LabColor>,
    original_labs: &Vec<LabColor>,
    radius: u32,
) -> (out: Vec<LabColor>)
    requires
        stage_one@.len() == width * height,
        original_labs@.len() == width * height,
        all_valid(stage_one@),
        all_valid(original_labs@),
        table_fits(width as int, height as int),
    ensures
        out@.len() == width * height,
        forall|i: int|
            0 <= i < out@.len() ==> #[trigger] out@[i] == stylized_color(
                stage_one@,
                width as int,
                height as int,
                original_labs@[i],
                i % (width as int),
                i / (width as int),
                radius as int,
            ),
        all_valid(out@),
{
    let table = compute_integral_image(width, height, stage_one);
    let mut out: Vec<LabColor> = Vec::new();
    let mut i: usize = 0;
    let n = original_labs.len();
    while i < n
        invariant
            table.wf(),
            table.width == width,
            table.height == height,
            table.source() == stage_one@,
            n == original_labs@.len(),
            original_labs@.len() == width * height,
            all_valid(original_labs@),
            0 <= i <= n,
            out@.len() == i,
            forall|j: int|
                0 <= j < i ==> #[trigger] out@[j] == stylized_color(
                    stage_one@,
                    width as int,
                    height as int,
                    original_labs@[j],
                    j % (width as int),
                    j / (width as int),
                    radius as int,
                ),
            all_valid(out@),
        decreases n - i,
    {
        proof {
            assert(width > 0) by (nonlinear_arith)
                requires
                    0 <= i < width * height,
                    width >= 0,
                    height >= 0,
            ;
            vstd::arithmetic::div_mod::lemma_div_pos_is_pos(i as int, width as int);
            assert((i as int) / (width as int) < height) by {
                vstd::arithmetic::div_mod::lemma_div_is_ordered(
                    i as int,
                    (width * height - 1) as int,
                    width as int,
                );
                vstd::arithmetic::div_mod::lemma_div_multiples_vanish_fancy(
                    (height - 1) as int,
                    (width - 1) as int,
                    width as int,
                );
                assert(width * (height - 1) + (width - 1) == width * height - 1)
                    by (nonlinear_arith);
            }
        }
        let x = i % width;
        let y = i / width;
        let avg = table.windowed_average(x, y, radius);
        let c = transfer_luminance(&original_labs[i], &avg);
        out.push(c);
        i = i + 1;
    }
    out
}

/// Blends each stylized pixel with the original pixel at the same place.
pub fn blend_image(stylized: &Vec<Pixel>, original: &Vec<Pixel>, factor: u32) -> (out: Vec<Pixel>)
    requires
        stylized@.len() == original@.len(),
        factor <= BLEND_SCALE,
    ensures
        out@.len() == original@.len(),
        forall|i: int|
            0 <= i < out@.len() ==> #[trigger] out@[i] == blended(
                stylized@[i],
                original@[i],
                factor as int,
            ),
{
    let mut out: Vec<Pixel> = Vec::new();
    let mut i: usize = 0;
    while i < original.len()
        invariant
            stylized@.len() == original@.len(),
            factor <= BLEND_SCALE,
            0 <= i <= original@.len(),
            out@.len() == i,
            forall|j: int|
                0 <= j < i ==> #[trigger] out@[j] == blended(
                    stylized@[j],
                    original@[j],
                    factor as int,
                ),
        decreases original@.len() - i,
    {
        out.push(blend_pixel(&stylized[i], &original[i], factor));
        i = i + 1;
    }
    out
}

/// Without dithering, stage 1 does not depend on the random draws: two runs
/// on the same pixels and cache give the same image, which is then the cached
/// matches themselves.
pub proof fn lemma_no_dither_is_deterministic(
    pixels: Seq<Pixel>,
    cache: Map<u32, LabColor>,
    draws1: Seq<Draw>,
    draws2: Seq<Draw>,
)
    requires
        draws1.len() == pixels.len(),
        draws2.len() == pixels.len(),
    ensures
        stage_one_image(pixels, cache, 0, draws1) == stage_one_image(pixels, cache, 0, draws2),
        forall|i: int|
            0 <= i < pixels.len() ==> #[trigger] stage_one_image(pixels, cache, 0, draws1)[i]
                == cache[pixel_key(pixels[i])],
{
    assert forall|i: int| 0 <= i < pixels.len() implies #[trigger] stage_one_image(
        pixels,
        cache,
        0,
        draws1,
    )[i] == cache[pixel_key(pixels[i])] && stage_one_image(pixels, cache, 0, draws1)[i]
        == stage_one_image(pixels, cache, 0, draws2)[i] by {
        let m = cache[pixel_key(pixels[i])];
        lemma_zero_dither_is_identity(m, m, draws1[i], draws2[i]);
    }
    assert(stage_one_image(pixels, cache, 0, draws1) =~= stage_one_image(pixels, cache, 0, draws2));
}

proof fn lemma_uniform_row(img: Seq<LabColor>, w: int, h: int, k: int, c: LabColor, y: int, x0: int, x1: int)
    requires
        img.len() == w * h,
        forall|i: int| 0 <= i < img.len() ==> #[trigger] img[i] == c,
        0 <= y < h,
        0 <= x0 <= x1 <= w,
    ensures
        row_sum(img, w, k, y, x0, x1) == (x1 - x0) * channel(c, k),
    decreases x1 - x0,
{
    if x1 > x0 {
        lemma_uniform_row(img, w, h, k, c, y, x0, x1 - 1);
        lemma_index_in_bounds(w, h, x1 - 1, y);
        assert(img[y * w + x1 - 1] == c);
        assert((x1 - 1 - x0) * channel(c, k) + channel(c, k) == (x1 - x0) * channel(c, k))
            by (nonlinear_arith);
    } else {
        assert((x1 - x0) * channel(c, k) == 0) by (nonlinear_arith)
            requires
                x1 == x0,
        ;
    }
}

proof fn lemma_uniform_rect(
    img: Seq<LabColor>,
    w: int,
    h: int,
    k: int,
    c: LabColor,
    x0: int,
    y0: int,
    x1: int,
    y1: int,
)
    requires
        img.len() == w * h,
        forall|i: int| 0 <= i < img.len() ==> #[trigger] img[i] == c,
        0 <= x0 <= x1 <= w,
        0 <= y0 <= y1 <= h,
    ensures
        rect_sum(img, w, k, x0, y0, x1, y1) == ((x1 - x0) * (y1 - y0)) * channel(c, k),
    decreases y1 - y0,
{
    if y1 > y0 {
        lemma_uniform_rect(img, w, h, k, c, x0, y0, x1, y1 - 1);
        lemma_uniform_row(img, w, h, k, c, y1 - 1, x0, x1);
        let dx = x1 - x0;
        let v = channel(c, k);
        assert((dx * (y1 - 1 - y0)) * v + dx * v == (dx * (y1 - y0)) * v) by (nonlinear_arith);
    } else {
        assert(((x1 - x0) * (y1 - y0)) * channel(c, k) == 0) by (nonlinear_arith)
            requires
                y1 == y0,
        ;
    }
}

proof fn lemma_mean_of_copies(n: int, v: int)
    requires
        n > 0,
    ensures
        div_trunc(n * v, n) == v,
{
    if v >= 0 {
        assert(n * v >= 0) by (nonlinear_arith)
            requires
                n > 0,
                v >= 0,
        ;
        vstd::arithmetic::div_mod::lemma_div_multiples_vanish(v, n);
    } else {
        assert(n * v < 0 && -(n * v) == n * (-v)) by (nonlinear_arith)
            requires
                n > 0,
                v < 0,
        ;
        vstd::arithmetic::div_mod::lemma_div_multiples_vanish(-v, n);
    }
}

/// A stage-1 image of one colour `c` is recoloured uniformly: whatever the
/// radius, every pixel gets the chromaticity of `c` and keeps the lightness
/// of its own original colour.
pub proof fn lemma_uniform_stage_one(
    stage_one: Seq<LabColor>,
    w: int,
    h: int,
    c: LabColor,
    original: LabColor,
    x: int,
    y: int,
    radius: int,
)
    requires
        stage_one.len() == w * h,
        forall|i: int| 0 <= i < stage_one.len() ==> #[trigger] stage_one[i] == c,
        0 <= x < w,
        0 <= y < h,
        0 <= radius,
    ensures
        stylized_color(stage_one, w, h, original, x, y, radius) == with_lightness_of(original, c),
{
    let x0 = window_start(x, radius);
    let y0 = window_start(y, radius);
    let x1 = window_end(x, radius, w);
    let y1 = window_end(y, radius, h);
    let n = (x1 - x0) * (y1 - y0);
    assert(n > 0) by (nonlinear_arith)
        requires
            n == (x1 - x0) * (y1 - y0),
            x1 > x0,
            y1 > y0,
    ;
    assert forall|k: int| 0 <= k < 3 implies #[trigger] window_average(
        stage_one,
        w,
        h,
        k,
        x,
        y,
        radius,
    ) == channel(c, k) by {
        lemma_uniform_rect(stage_one, w, h, k, c, x0, y0, x1, y1);
        lemma_mean_of_copies(n, channel(c, k));
    }
    assert(window_average(stage_one, w, h, 0, x, y, radius) == c.l);
    assert(window_average(stage_one, w, h, 1, x, y, radius) == c.a);
    assert(window_average(stage_one, w, h, 2, x, y, radius) == c.b);
}

} // verus!
