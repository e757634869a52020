//! Palette recolouring of raster images with local luminance detail kept.
//!
//! Colours are held in fixed point: a Lab channel is an integer in units of
//! `1 / LAB_SCALE`, a blend factor and a dither amount are fractions of
//! `BLEND_SCALE` and `DITHER_SCALE`. Converting between sRGB and Lab, and
//! measuring perceptual distance, happen outside this library; everything
//! that decides what colour a pixel becomes happens here.
pub mod color;
pub mod colorscheme;
pub mod config;
pub mod dither;
pub mod error;
pub mod gpu;
pub mod hex;
pub mod interpolation;
pub mod matching;
pub mod pipeline;
pub mod scan;
pub mod table;
pub mod averaging;
pub mod blend;
