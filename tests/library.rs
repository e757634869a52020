use image_colorizer::averaging::clamped_window;
use image_colorizer::blend::{blend_pixel, BLEND_SCALE};
use image_colorizer::color::{key_of, transfer_luminance, LabColor, Pixel};
use image_colorizer::colorscheme::{parse_and_validate_colorscheme, parse_colorscheme};
use image_colorizer::config::{
    colorscheme_source, generate_input_output_pairs, AppConfig, ColorschemeSource,
    SerializedAppConfig,
};
use image_colorizer::dither::{dither, Draw, DITHER_SCALE};
use image_colorizer::error::AppError;
use image_colorizer::gpu::{
    failure_error, gpu_start, gpu_step, GpuAction, GpuEvent, GpuFailure, GpuStage,
};
use image_colorizer::hex::hex_to_rgb;
use image_colorizer::interpolation::{interpolate_color, interpolate_colors, lightness_order};
use image_colorizer::matching::{nearest_index, ColorCache};
use image_colorizer::pipeline::{stage_one, uncached_pixels};
use image_colorizer::scan::{scan_rows, separable_integral_image, transpose};
use image_colorizer::table::{compute_integral_image, table_fits_for, ChannelSums};

fn lab(l: i32, a: i32, b: i32) -> LabColor {
    LabColor { l, a, b }
}

fn sample_image() -> Vec<LabColor> {
    let mut v = Vec::new();
    for i in 0..20 {
        v.push(lab(i * 1000, 50 - i * 7, (i * i) % 13 - 6));
    }
    v
}

#[test]
fn table_matches_brute_force_sums() {
    let img = sample_image();
    let (w, h) = (5usize, 4usize);
    let t = compute_integral_image(w, h, &img);
    for y0 in 0..=h {
        for y1 in y0..=h {
            for x0 in 0..=w {
                for x1 in x0..=w {
                    let s = t.region_sum(x0, y0, x1, y1);
                    let (mut l, mut a, mut b) = (0i64, 0i64, 0i64);
                    for y in y0..y1 {
                        for x in x0..x1 {
                            let c = img[y * w + x];
                            l += c.l as i64;
                            a += c.a as i64;
                            b += c.b as i64;
                        }
                    }
                    assert_eq!((s.l, s.a, s.b), (l, a, b));
                }
            }
        }
    }
}

#[test]
fn table_border_is_zero() {
    let t = compute_integral_image(5, 4, &sample_image());
    assert_eq!(t.cells.len(), 30);
    for x in 0..6 {
        assert_eq!((t.cells[x].l, t.cells[x].a, t.cells[x].b), (0, 0, 0));
    }
    for y in 0..5 {
        assert_eq!(t.cells[y * 6].l, 0);
    }
    assert_eq!(t.cells[29].l, (0..20).map(|i| i * 1000i64).sum::<i64>());
}

#[test]
fn zero_radius_average_is_the_pixel() {
    let img = sample_image();
    let t = compute_integral_image(5, 4, &img);
    for y in 0..4 {
        for x in 0..5 {
            assert_eq!(t.windowed_average(x, y, 0), img[y * 5 + x]);
        }
    }
}

#[test]
fn corner_window_is_clamped() {
    let w = clamped_window(0, 0, 5, 4, 4);
    assert_eq!((w.x0, w.y0, w.x1, w.y1), (0, 0, 4, 4));
    assert_eq!(w.pixel_count(), 16);
    let img: Vec<LabColor> = (0..16).map(|i| lab(i * 100, -i, 3)).collect();
    let t = compute_integral_image(4, 4, &img);
    assert_eq!(t.windowed_average(0, 0, 5), lab(750, -7, 3));
}

#[test]
fn inner_window_average_truncates_toward_zero() {
    let img: Vec<LabColor> = (0..9).map(|i| lab(i, -i, 0)).collect();
    let t = compute_integral_image(3, 3, &img);
    assert_eq!(t.windowed_average(0, 0, 1), lab(2, -2, 0));
    assert_eq!(t.windowed_average(1, 1, 1), lab(4, -4, 0));
    let w = clamped_window(2, 1, 1, 3, 3);
    assert_eq!((w.x0, w.y0, w.x1, w.y1, w.pixel_count()), (1, 0, 3, 3, 6));
}

#[test]
fn table_size_limits() {
    assert!(table_fits_for(4000, 3000));
    assert!(!table_fits_for(usize::MAX, 1));
    assert!(!table_fits_for(1 << 21, 1 << 21));
}

#[test]
fn blend_factor_extremes() {
    let s = Pixel { r: 10, g: 200, b: 77 };
    let o = Pixel { r: 250, g: 3, b: 128 };
    assert_eq!(blend_pixel(&s, &o, 0), o);
    assert_eq!(blend_pixel(&s, &o, BLEND_SCALE), s);
    assert_eq!(blend_pixel(&s, &o, BLEND_SCALE / 2), Pixel { r: 130, g: 102, b: 103 });
}

#[test]
fn nearest_is_first_minimum() {
    assert_eq!(nearest_index(&vec![5, 3, 9, 3, 4]), 1);
    assert_eq!(nearest_index(&vec![7]), 0);
    assert_eq!(nearest_index(&vec![2, 2, 2]), 0);
    assert_eq!(nearest_index(&vec![9, 8, 7, 0]), 3);
}

#[test]
fn match_keeps_lightness_and_caches() {
    let mut cache = ColorCache::new();
    let p = Pixel { r: 1, g: 2, b: 3 };
    let palette = vec![lab(0, 10, 20), lab(50_000, 30, 40), lab(9, 30, 41)];
    let m = cache.match_color(&p, &lab(1234, 5, 6), &vec![9, 1, 1], &palette).unwrap();
    assert_eq!(m, lab(1234, 30, 40));
    assert_eq!(cache.get(&p), Some(lab(1234, 30, 40)));
    let again = cache.match_color(&p, &lab(1234, 5, 6), &vec![0, 9, 9], &palette).unwrap();
    assert_eq!(again, lab(1234, 30, 40));
    assert!(cache.contains(&p));
    assert!(!cache.contains(&Pixel { r: 3, g: 2, b: 1 }));
}

#[test]
fn empty_palette_is_refused() {
    let mut cache = ColorCache::new();
    let p = Pixel { r: 1, g: 2, b: 3 };
    let r = cache.match_color(&p, &lab(1, 2, 3), &vec![], &vec![]);
    assert!(matches!(r, Err(AppError::PaletteEmpty)));
    assert_eq!(cache.get(&p), None);
    let c = AppConfig::new(vec![], 5000, vec![], 100, 3);
    assert!(matches!(c, Err(AppError::PaletteEmpty)));
}

#[test]
fn config_caps_fractions() {
    let c = AppConfig::new(vec![], 20_000, vec![lab(0, 0, 0)], 5_000, 3).ok().unwrap();
    assert_eq!(c.blend_factor, BLEND_SCALE);
    assert_eq!(c.dither_amount, DITHER_SCALE);
    assert_eq!(c.spatial_averaging_radius, 3);
}

#[test]
fn pixel_keys_pack_bytes() {
    assert_eq!(key_of(&Pixel { r: 0x12, g: 0x34, b: 0x56 }), 0x123456);
    assert_eq!(key_of(&Pixel { r: 255, g: 255, b: 255 }), 0xFFFFFF);
}

#[test]
fn luminance_transfer_mixes() {
    assert_eq!(transfer_luminance(&lab(1, 2, 3), &lab(4, 5, 6)), lab(1, 5, 6));
}

#[test]
fn dither_moves_toward_target() {
    let c = lab(1000, -1000, 0);
    let t = lab(2000, 1000, 0);
    let d = Draw { l: 32768, a: 65535, b: 0 };
    assert_eq!(dither(&c, &t, 0, &d), c);
    assert_eq!(dither(&c, &c, DITHER_SCALE, &d), c);
    assert_eq!(dither(&c, &t, DITHER_SCALE, &d), lab(1500, 999, 0));
    assert_eq!(dither(&t, &c, DITHER_SCALE, &d), lab(1500, -999, 0));
}

#[test]
fn uncached_pixels_are_distinct() {
    let a = Pixel { r: 1, g: 1, b: 1 };
    let b = Pixel { r: 2, g: 2, b: 2 };
    let c = Pixel { r: 3, g: 3, b: 3 };
    let mut cache = ColorCache::new();
    cache.insert(&b, lab(0, 0, 0));
    assert_eq!(uncached_pixels(&vec![a, b, a, c, b, c], &cache), vec![a, c]);
    assert_eq!(uncached_pixels(&vec![c, b, a, c, a], &cache), vec![c, a]);
}

#[test]
fn stage_one_uses_cached_matches() {
    let a = Pixel { r: 1, g: 1, b: 1 };
    let b = Pixel { r: 2, g: 2, b: 2 };
    let mut cache = ColorCache::new();
    cache.insert(&a, lab(10, 20, 30));
    cache.insert(&b, lab(40, 50, 60));
    let draws = vec![Draw { l: 100, a: 200, b: 300 }; 3];
    let out = stage_one(&vec![a, b, a], &cache, 500, &draws);
    assert_eq!(out, vec![lab(10, 20, 30), lab(40, 50, 60), lab(10, 20, 30)]);
}

#[test]
fn hex_codes() {
    assert_eq!(hex_to_rgb("#ffaa00"), Ok(Pixel { r: 255, g: 170, b: 0 }));
    assert_eq!(hex_to_rgb("fa0"), Ok(Pixel { r: 255, g: 170, b: 0 }));
    assert_eq!(hex_to_rgb("##1F1f28"), Ok(Pixel { r: 31, g: 31, b: 40 }));
    assert_eq!(hex_to_rgb("#+f0a0b"), Ok(Pixel { r: 15, g: 10, b: 11 }));
    assert_eq!(hex_to_rgb("#ggg"), Err("invalid digit found in string".to_string()));
    assert_eq!(
        hex_to_rgb("#abcd"),
        Err("Invalid input: '#abcd'. Expected a 3 or 6-digit hex code.".to_string())
    );
}

#[test]
fn colorscheme_text() {
    let text = "// Grayscale\n#fff\n  #000  // black\n\n   \n#123456\r\nlast";
    assert_eq!(parse_colorscheme(text), vec!["#fff", "#000", "#123456", "last"]);
    assert_eq!(parse_colorscheme(""), Vec::<String>::new());
    assert_eq!(parse_colorscheme("a//b//c\n//\nx /"), vec!["a", "x /"]);
}

#[test]
fn empty_colorscheme_is_refused() {
    match parse_and_validate_colorscheme("// nothing\n\n", "mine") {
        Err(AppError::Other(m)) => assert_eq!(m, "Colorscheme 'mine' is empty"),
        _ => panic!("expected an error"),
    }
    assert_eq!(parse_and_validate_colorscheme("#fff", "x").ok().unwrap(), vec!["#fff"]);
}

#[test]
fn output_paths() {
    let pairs =
        generate_input_output_pairs(&["pics/cat.png", "dog.jpg", "noext"], None, "nord").ok().unwrap();
    assert_eq!(pairs[0], ("pics/cat.png".to_string(), "pics/cat_nord.png".to_string()));
    assert_eq!(pairs[1], ("dog.jpg".to_string(), "dog_nord.jpg".to_string()));
    assert_eq!(pairs[2], ("noext".to_string(), "noext_nord.".to_string()));
    let pairs =
        generate_input_output_pairs(&["pics/cat.png"], Some("out".to_string()), "k").ok().unwrap();
    assert_eq!(pairs[0].1, "out/cat_k.png");
    assert!(matches!(
        generate_input_output_pairs(&["a.png", "/"], None, "k"),
        Err(AppError::Other(_))
    ));
}

#[test]
fn colorscheme_sources() {
    assert_eq!(colorscheme_source("kanagawa", true), ColorschemeSource::LocalFile);
    assert_eq!(colorscheme_source("kanagawa", false), ColorschemeSource::BuiltIn);
    assert_eq!(colorscheme_source("nord", false), ColorschemeSource::Download);
}

#[test]
fn default_settings() {
    let c = SerializedAppConfig::defaults();
    assert_eq!(c.blend_factor, "0.9");
    assert_eq!(c.colorscheme, "kanagawa");
    assert!(c.interpolate_colors);
    assert_eq!(c.interpolation_threshold, "2.5");
    assert_eq!(c.dither_amount, "0.1");
    assert_eq!(c.spatial_averaging_radius, "10");
}

#[test]
fn interpolation_fills_wide_gaps() {
    assert_eq!(interpolate_color(&lab(0, 0, 0), &lab(100, -100, 7), 1, 4), lab(25, -25, 1));
    let colors = vec![lab(0, 0, 0), lab(90, 30, -30), lab(100, 30, -30)];
    let d = vec![vec![0, 2500, 2700], vec![2500, 0, 1000], vec![2700, 1000, 0]];
    let out = interpolate_colors(&colors, &d, 1000);
    assert_eq!(
        out,
        vec![lab(0, 0, 0), lab(30, 10, -10), lab(60, 20, -20), lab(90, 30, -30), lab(100, 30, -30)]
    );
    assert_eq!(interpolate_colors(&vec![lab(5, 5, 5)], &vec![vec![0]], 10), vec![lab(5, 5, 5)]);
}

#[test]
fn interpolation_orders_by_lightness() {
    let colors = vec![lab(50, 1, 1), lab(0, 2, 2), lab(50, 3, 3), lab(20, 4, 4)];
    assert_eq!(lightness_order(&colors), vec![1, 3, 0, 2]);
    let d = vec![vec![0; 4]; 4];
    assert_eq!(
        interpolate_colors(&colors, &d, 10),
        vec![lab(0, 2, 2), lab(20, 4, 4), lab(50, 1, 1), lab(50, 3, 3)]
    );
    let d = vec![vec![0, 30], vec![30, 0]];
    assert_eq!(
        interpolate_colors(&vec![lab(60, 0, 0), lab(0, 0, 0)], &d, 10),
        vec![lab(0, 0, 0), lab(20, 0, 0), lab(40, 0, 0), lab(60, 0, 0)]
    );
}

#[test]
fn error_messages() {
    assert_eq!(AppError::Io("gone".to_string()).message(), "I/O error: gone");
    assert_eq!(AppError::Other("x".to_string()).message(), "Error: x");
    assert_eq!(AppError::PaletteEmpty.message(), "Error: the palette is empty");
    let e: AppError = "boom".to_string().into();
    assert!(matches!(e, AppError::Other(ref m) if m == "boom"));
}

#[test]
fn separable_scan_matches_table() {
    let img = sample_image();
    let (w, h) = (5usize, 4usize);
    let t = compute_integral_image(w, h, &img);
    let s = separable_integral_image(w, h, &img);
    assert_eq!(s.len(), 20);
    for y in 0..h {
        for x in 0..w {
            assert_eq!(s[y * w + x], t.cells[(y + 1) * (w + 1) + x + 1]);
        }
    }
}

#[test]
fn row_scan_and_transpose() {
    let g: Vec<ChannelSums> = (1..=6).map(|i| ChannelSums { l: i, a: -i, b: 10 * i }).collect();
    let rows = scan_rows(&g, 3, 2);
    let ls: Vec<i64> = rows.iter().map(|c| c.l).collect();
    assert_eq!(ls, vec![1, 3, 6, 4, 9, 15]);
    let turned = transpose(&g, 3, 2);
    let ls: Vec<i64> = turned.iter().map(|c| c.l).collect();
    assert_eq!(ls, vec![1, 4, 2, 5, 3, 6]);
}

#[test]
fn gpu_run_walks_the_pass_chain() {
    let (mut stage, mut action) = gpu_start();
    assert_eq!((stage, action), (GpuStage::Idle, GpuAction::AcquireDevice));
    let mut actions = vec![action];
    for _ in 0..11 {
        let r = gpu_step(stage, GpuEvent::Completed);
        stage = r.0;
        action = r.1;
        actions.push(action);
    }
    assert_eq!(stage, GpuStage::Done);
    assert_eq!(
        actions,
        vec![
            GpuAction::AcquireDevice,
            GpuAction::AllocateBuffers,
            GpuAction::DispatchPass1,
            GpuAction::ReadBackPass1,
            GpuAction::ScanRows,
            GpuAction::Transpose,
            GpuAction::ScanColumns,
            GpuAction::TransposeBack,
            GpuAction::DispatchPass3,
            GpuAction::ReadBackFinal,
            GpuAction::Finish,
            GpuAction::Finish,
        ]
    );
    assert_eq!(gpu_step(GpuStage::Done, GpuEvent::Completed).0, GpuStage::Done);
}

#[test]
fn gpu_failures_are_final() {
    let r = gpu_step(GpuStage::Idle, GpuEvent::Failure(GpuFailure::DeviceUnavailable));
    assert_eq!(
        r,
        (
            GpuStage::Failed(GpuFailure::DeviceUnavailable),
            GpuAction::Report(GpuFailure::DeviceUnavailable)
        )
    );
    let r = gpu_step(GpuStage::Pass3Dispatched, GpuEvent::Failure(GpuFailure::BufferMapFailed));
    assert_eq!(r.0, GpuStage::Failed(GpuFailure::BufferMapFailed));
    assert_eq!(gpu_step(r.0, GpuEvent::Completed), r);
    assert!(matches!(failure_error(GpuFailure::BufferMapFailed), AppError::BufferMapFailed));
    assert!(matches!(failure_error(GpuFailure::DeviceUnavailable), AppError::DeviceUnavailable));
}
