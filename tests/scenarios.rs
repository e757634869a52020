use image_colorizer::averaging::clamped_window;
use image_colorizer::blend::BLEND_SCALE;
use image_colorizer::color::{LabColor, Pixel, LAB_SCALE};
use image_colorizer::dither::Draw;
use image_colorizer::matching::ColorCache;
use image_colorizer::pipeline::{blend_image, stage_one, stylize, uncached_pixels};
use image_colorizer::table::compute_integral_image;

use palette::color_difference::ImprovedCiede2000;
use palette::{FromColor, Lab, Srgb};

fn lab_of(p: Pixel) -> LabColor {
    let lab: Lab = Lab::from_color(Srgb::new(p.r, p.g, p.b).into_format::<f32>());
    let s = LAB_SCALE as f32;
    LabColor {
        l: (lab.l * s).round() as i32,
        a: (lab.a * s).round() as i32,
        b: (lab.b * s).round() as i32,
    }
}

fn palette_lab(c: LabColor) -> Lab {
    let s = LAB_SCALE as f32;
    Lab::new(c.l as f32 / s, c.a as f32 / s, c.b as f32 / s)
}

fn pixel_of(c: LabColor) -> Pixel {
    let rgb: Srgb = Srgb::from_color(palette_lab(c));
    let rgb: Srgb<u8> = rgb.into_format();
    Pixel { r: rgb.red, g: rgb.green, b: rgb.blue }
}

fn distance(a: LabColor, b: LabColor) -> u64 {
    (palette_lab(a).improved_difference(palette_lab(b)) * 1000.0).round() as u64
}

/// The whole CPU pipeline, with the colour conversions done here.
fn run(
    pixels: &Vec<Pixel>,
    width: usize,
    height: usize,
    palette: &Vec<Pixel>,
    blend: u32,
    radius: u32,
) -> (Vec<LabColor>, Vec<Pixel>) {
    let pal: Vec<LabColor> = palette.iter().map(|p| lab_of(*p)).collect();
    let mut cache = ColorCache::new();
    for p in uncached_pixels(pixels, &cache) {
        let lab = lab_of(p);
        let d: Vec<u64> = pal.iter().map(|c| distance(lab, *c)).collect();
        cache.match_color(&p, &lab, &d, &pal).unwrap();
    }
    let draws = vec![Draw { l: 0, a: 0, b: 0 }; pixels.len()];
    let first = stage_one(pixels, &cache, 0, &draws);
    let originals: Vec<LabColor> = pixels.iter().map(|p| lab_of(*p)).collect();
    let labs = stylize(width, height, &first, &originals, radius);
    let stylized: Vec<Pixel> = labs.iter().map(|c| pixel_of(*c)).collect();
    (labs.clone(), blend_image(&stylized, pixels, blend))
}

#[test]
fn solid_white_stays_white() {
    let white = Pixel { r: 255, g: 255, b: 255 };
    let black = Pixel { r: 0, g: 0, b: 0 };
    let pixels = vec![white; 16];
    let (_, out) = run(&pixels, 4, 4, &vec![black, white], BLEND_SCALE, 1);
    assert_eq!(out.len(), 16);
    for p in out {
        assert_eq!(p, white);
    }
}

#[test]
fn single_pixel_with_large_radius() {
    let c = LabColor { l: 41_000, a: -7_500, b: 12_250 };
    let t = compute_integral_image(1, 1, &vec![c]);
    let w = clamped_window(0, 0, 5, 1, 1);
    assert_eq!((w.x0, w.y0, w.x1, w.y1), (0, 0, 1, 1));
    assert_eq!(w.pixel_count(), 1);
    assert_eq!(t.windowed_average(0, 0, 5), c);
}

#[test]
fn single_pixel_image_runs_through() {
    let p = Pixel { r: 10, g: 200, b: 30 };
    let (labs, out) = run(&vec![p], 1, 1, &vec![p], BLEND_SCALE, 5);
    assert_eq!(labs[0], lab_of(p));
    assert_eq!(out.len(), 1);
}

#[test]
fn uniform_gray_gets_one_colour_and_keeps_lightness() {
    let gray = Pixel { r: 128, g: 128, b: 128 };
    let red = Pixel { r: 255, g: 0, b: 0 };
    let blue = Pixel { r: 0, g: 0, b: 255 };
    let pixels = vec![gray; 12];
    let (labs, out) = run(&pixels, 4, 3, &vec![red, blue], BLEND_SCALE, 2);
    let gray_lab = lab_of(gray);
    for c in &labs {
        assert_eq!(*c, labs[0]);
        assert_eq!(c.l, gray_lab.l);
    }
    assert!(labs[0].a != gray_lab.a || labs[0].b != gray_lab.b);
    for p in &out {
        assert_eq!(*p, out[0]);
    }
}

#[test]
fn no_dither_runs_agree() {
    let pixels = vec![
        Pixel { r: 12, g: 40, b: 200 },
        Pixel { r: 250, g: 10, b: 10 },
        Pixel { r: 12, g: 40, b: 200 },
        Pixel { r: 90, g: 90, b: 90 },
    ];
    let palette = vec![Pixel { r: 0, g: 0, b: 0 }, Pixel { r: 255, g: 128, b: 0 }];
    let a = run(&pixels, 2, 2, &palette, 7_000, 1);
    let b = run(&pixels, 2, 2, &palette, 7_000, 1);
    assert_eq!(a, b);
}
