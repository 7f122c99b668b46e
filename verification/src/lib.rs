//! Detection and removal of a fixed-pattern semi-transparent logo watermark
//! overlaid on raster images, by inverting the alpha-blend equation that was
//! used to apply it.
//!
//! All scores and opacities are carried as fixed-point integers so that every
//! algorithm in this crate is verified: opacities are numerators over
//! [`ALPHA_SCALE`], scores are numerators over [`SCORE_SCALE`].

use vstd::prelude::*;

pub mod blending;
pub mod detection;
pub mod engine;
pub mod error;
pub mod numeric;
pub mod paths;
pub mod raster;

verus! {

/// Fixed-point scale for detection scores and thresholds: a score of
/// `SCORE_SCALE` stands for 1.0.
pub const SCORE_SCALE: i64 = 1_000_000;

/// Fixed-point scale for per-pixel opacities: an opacity of `ALPHA_SCALE`
/// stands for a fully opaque 1.0.
pub const ALPHA_SCALE: i64 = 10_000;

} // verus!
