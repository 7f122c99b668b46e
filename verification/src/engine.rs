//! The watermark engine: size selection, position calculation, and the
//! detect-then-remove sequence over a single image.

use vstd::prelude::*;

use crate::SCORE_SCALE;
use crate::blending::{
    calculate_alpha_map, decoded_rgb_of, remove_watermark_alpha_blend, spec_alpha_map,
    spec_remove_image,
};
use crate::detection::{DetectionResult, detect_watermark, spec_detect};
use crate::error::Error;
use crate::raster::Image;

verus! {

/// Watermark size classification.
#[derive(Debug, Clone, Copy, PartialEq, Eq, Structural)]
pub enum WatermarkSize {
    /// 48 x 48 watermark with a 32-pixel margin: images where either
    /// dimension is at most 1024.
    Small,
    /// 96 x 96 watermark with a 64-pixel margin: images where both
    /// dimensions exceed 1024.
    Large,
}

/// The variant picked from the image dimensions: Large exactly when both
/// width and height exceed 1024.
pub open spec fn spec_variant(w: int, h: int) -> WatermarkSize {
    if w > 1024 && h > 1024 {
        WatermarkSize::Large
    } else {
        WatermarkSize::Small
    }
}

/// The variant in effect: an explicit override always wins over the
/// dimension heuristic.
pub open spec fn spec_selected(force: Option<WatermarkSize>, w: int, h: int) -> WatermarkSize {
    match force {
        Some(s) => s,
        None => spec_variant(w, h),
    }
}

/// Edge length in pixels of a variant's watermark region.
pub open spec fn spec_size_px(s: WatermarkSize) -> int {
    match s {
        WatermarkSize::Small => 48,
        WatermarkSize::Large => 96,
    }
}

/// Margin in pixels between a variant's region and the image corner.
pub open spec fn spec_margin_px(s: WatermarkSize) -> int {
    match s {
        WatermarkSize::Small => 32,
        WatermarkSize::Large => 64,
    }
}

/// One coordinate of the region's top-left corner: the image edge minus
/// region size and margin, clamped to zero.
pub open spec fn spec_pos(img: int, size: int, margin: int) -> int {
    if img >= size + margin {
        img - size - margin
    } else {
        0
    }
}

/// Options controlling watermark processing behavior. The threshold is
/// fixed-point over [`SCORE_SCALE`].
#[derive(Debug, Clone)]
pub struct ProcessOptions {
    /// Skip watermark detection, process unconditionally.
    pub force: bool,
    /// Detection confidence threshold in `[0, SCORE_SCALE]`.
    pub threshold: i64,
    /// Force a specific watermark size instead of auto-detecting.
    pub force_size: Option<WatermarkSize>,
    /// Enable verbose logging (collaborator's concern).
    pub verbose: bool,
    /// Suppress non-error output (collaborator's concern).
    pub quiet: bool,
}

impl Default for ProcessOptions {
    /// Detection on, threshold 0.25, automatic size, normal verbosity.
    fn default() -> (r: Self)
        ensures
            !r.force,
            r.threshold == 250_000,
            (r.force_size is None),
            !r.verbose,
            !r.quiet,
    {
        ProcessOptions {
            force: false,
            threshold: 250_000,
            force_size: None,
            verbose: false,
            quiet: false,
        }
    }
}

/// Why processing of an image ended the way it did.
#[derive(Debug, Clone, Copy, PartialEq, Eq, Structural)]
pub enum ProcessStatus {
    /// The image cannot hold the watermark region at its margin.
    TooSmall {
        /// Image width in pixels.
        width: u32,
        /// Image height in pixels.
        height: u32,
        /// Edge length of the watermark region that did not fit.
        wm_size: u32,
    },
    /// Detection found no watermark above the caller's threshold.
    NoWatermark {
        /// Spatial NCC score of the detection run.
        spatial_score: i64,
        /// Gradient NCC score of the detection run.
        gradient_score: i64,
        /// Variance dampening score of the detection run.
        variance_score: i64,
    },
    /// The watermark region was reverse-blended.
    Removed,
}

/// Result of processing a single image.
#[derive(Debug, Clone, Copy, PartialEq, Eq, Structural)]
pub struct ProcessResult {
    /// Whether processing succeeded (a skip counts as success).
    pub success: bool,
    /// Whether the image was left untouched (too small, or no watermark).
    pub skipped: bool,
    /// Detection confidence over [`SCORE_SCALE`]; zero when detection did
    /// not run.
    pub confidence: i64,
    /// What happened.
    pub status: ProcessStatus,
}

/// The watermark engine holding the two pre-computed opacity maps.
///
/// Create once with [`WatermarkEngine::new`] and reuse for any number of
/// images: the maps are immutable afterwards.
pub struct WatermarkEngine {
    alpha_map_small: Vec<i64>,
    alpha_map_large: Vec<i64>,
    logo_value: u8,
}

impl WatermarkEngine {
    /// The small map is 48 x 48, the large one 96 x 96, all opacities lie in
    /// `[0, ALPHA_SCALE]`, and the logo is assumed white.
    #[verifier::type_invariant]
    pub closed spec fn inv(self) -> bool {
        &&& self.alpha_map_small@.len() == 2304
        &&& self.alpha_map_large@.len() == 9216
        &&& (forall|i: int|
            0 <= i < self.alpha_map_small@.len() ==> 0 <= #[trigger] self.alpha_map_small@[i]
                <= crate::ALPHA_SCALE)
        &&& (forall|i: int|
            0 <= i < self.alpha_map_large@.len() ==> 0 <= #[trigger] self.alpha_map_large@[i]
                <= crate::ALPHA_SCALE)
        &&& self.logo_value == 255
    }

    /// The opacity map of a variant, as the engine holds it.
    pub closed spec fn spec_map(self, s: WatermarkSize) -> Seq<i64> {
        match s {
            WatermarkSize::Small => self.alpha_map_small@,
            WatermarkSize::Large => self.alpha_map_large@,
        }
    }

    /// Build an engine from the two reference captures (the logo rendered
    /// over white at 48 x 48 and at 96 x 96). Succeeds exactly when both
    /// captures decode to their expected square sizes, and then holds their
    /// opacity maps ([`spec_alpha_map`] of each decoded picture,
    /// [`decoded_rgb_of`]); fails with [`Error::AlphaMapDecode`] when a
    /// capture cannot be decoded, and with [`Error::MaskDimensions`] when a
    /// decoded capture is not the expected square size, checking the small
    /// capture first.
    pub fn new(small_png: &[u8], large_png: &[u8]) -> (r: Result<WatermarkEngine, Error>)
        ensures
            ({
                let ds = decoded_rgb_of(small_png@);
                let dl = decoded_rgb_of(large_png@);
                &&& ((r is Ok) <==> ((ds matches Some(s) && s.0 == 48 && s.1 == 48) && (
                dl matches Some(l) && l.0 == 96 && l.1 == 96)))
                &&& (r matches Ok(e) ==> ds matches Some(s) && e.spec_map(WatermarkSize::Small)
                    == spec_alpha_map(s.2, 48, 48))
                &&& (r matches Ok(e) ==> dl matches Some(l) && e.spec_map(WatermarkSize::Large)
                    == spec_alpha_map(l.2, 96, 96))
                &&& (r matches Ok(e) ==> e.spec_map(WatermarkSize::Small).len() == 2304
                    && e.spec_map(WatermarkSize::Large).len() == 9216)
                &&& (r matches Ok(e) ==> (forall|i: int|
                    0 <= i < 2304 ==> 0 <= #[trigger] e.spec_map(WatermarkSize::Small)[i]
                        <= crate::ALPHA_SCALE) && (forall|i: int|
                    0 <= i < 9216 ==> 0 <= #[trigger] e.spec_map(WatermarkSize::Large)[i]
                        <= crate::ALPHA_SCALE))
                &&& (r matches Err(err) ==> match ds {
                    Option::None => err matches Error::AlphaMapDecode(_),
                    Option::Some(s) => {
                        if s.0 != 48 || s.1 != 48 {
                            err == (Error::MaskDimensions { width: s.0, height: s.1, expected: 48 })
                        } else {
                            match dl {
                                Option::None => err matches Error::AlphaMapDecode(_),
                                Option::Some(l) => err == (Error::MaskDimensions {
                                    width: l.0,
                                    height: l.1,
                                    expected: 96,
                                }),
                            }
                        }
                    },
                })
            }),
    {
        let small = match calculate_alpha_map(small_png) {
            Ok(t) => t,
            Err(e) => {
                return Err(e);
            },
        };
        let (alpha_small, w48, h48) = small;
        if w48 != 48 || h48 != 48 {
            return Err(Error::MaskDimensions { width: w48, height: h48, expected: 48 });
        }
        let large = match calculate_alpha_map(large_png) {
            Ok(t) => t,
            Err(e) => {
                return Err(e);
            },
        };
        let (alpha_large, w96, h96) = large;
        if w96 != 96 || h96 != 96 {
            return Err(Error::MaskDimensions { width: w96, height: h96, expected: 96 });
        }
        Ok(
            WatermarkEngine {
                alpha_map_small: alpha_small,
                alpha_map_large: alpha_large,
                logo_value: 255,
            },
        )
    }

    /// Classify the watermark size from the image dimensions: Large exactly
    /// when both dimensions exceed 1024 (a 2048 x 512 image is still Small).
    pub fn watermark_size_for(&self, width: u32, height: u32) -> (r: WatermarkSize)
        ensures
            r == spec_variant(width as int, height as int),
    {
        if width > 1024 && height > 1024 {
            WatermarkSize::Large
        } else {
            WatermarkSize::Small
        }
    }

    /// Region edge length and margin for the given dimensions, after any
    /// override.
    fn config(&self, width: u32, height: u32, force_size: Option<WatermarkSize>) -> (r: (u32, u32))
        ensures
            r.0 == spec_size_px(spec_selected(force_size, width as int, height as int)),
            r.1 == spec_margin_px(spec_selected(force_size, width as int, height as int)),
    {
        let size = match force_size {
            Some(s) => s,
            None => self.watermark_size_for(width, height),
        };
        match size {
            WatermarkSize::Small => (48, 32),
            WatermarkSize::Large => (96, 64),
        }
    }

    /// Top-left corner of the watermark region: the bottom-right corner of
    /// the image minus region size and margin, clamped to zero on each axis.
    fn position(&self, img_w: u32, img_h: u32, wm_size: u32, margin: u32) -> (r: (u32, u32))
        requires
            wm_size + margin <= u32::MAX,
        ensures
            r.0 == spec_pos(img_w as int, wm_size as int, margin as int),
            r.1 == spec_pos(img_h as int, wm_size as int, margin as int),
    {
        let off = wm_size + margin;
        let x = if img_w >= off {
            img_w - off
        } else {
            0
        };
        let y = if img_h >= off {
            img_h - off
        } else {
            0
        };
        (x, y)
    }

    /// Run the three-stage detector at the expected watermark position:
    /// exactly [`spec_detect`] with the selected variant's opacity map, size
    /// and position.
    pub fn detect(&self, image: &Image, opts: &ProcessOptions) -> (r: DetectionResult)
        requires
            image.wf(),
            0 <= opts.threshold <= SCORE_SCALE,
        ensures
            ({
                let w = image.width as int;
                let h = image.height as int;
                let sel = spec_selected(opts.force_size, w, h);
                let size = spec_size_px(sel);
                let margin = spec_margin_px(sel);
                r == spec_detect(
                    image.data@,
                    w,
                    h,
                    self.spec_map(sel),
                    size,
                    size,
                    spec_pos(w, size, margin),
                    spec_pos(h, size, margin),
                    opts.threshold as int,
                )
            }),
    {
        proof {
            use_type_invariant(&*self);
        }
        let sel = match opts.force_size {
            Some(s) => s,
            None => self.watermark_size_for(image.width, image.height),
        };
        let (wm_size, margin) = self.config(image.width, image.height, opts.force_size);
        let (pos_x, pos_y) = self.position(image.width, image.height, wm_size, margin);
        match sel {
            WatermarkSize::Small => detect_watermark(
                image,
                &self.alpha_map_small,
                wm_size,
                wm_size,
                pos_x,
                pos_y,
                opts.threshold,
            ),
            WatermarkSize::Large => detect_watermark(
                image,
                &self.alpha_map_large,
                wm_size,
                wm_size,
                pos_x,
                pos_y,
                opts.threshold,
            ),
        }
    }

    /// Reverse-blend the watermark region in place: the buffer becomes
    /// exactly [`spec_remove_image`] with the selected variant's opacity
    /// map, size and position, and a white logo.
    pub fn remove(&self, image: &mut Image, force_size: Option<WatermarkSize>)
        requires
            old(image).wf(),
        ensures
            final(image).wf(),
            final(image).width == old(image).width,
            final(image).height == old(image).height,
            ({
                let w = old(image).width as int;
                let h = old(image).height as int;
                let sel = spec_selected(force_size, w, h);
                let size = spec_size_px(sel);
                let margin = spec_margin_px(sel);
                final(image).data@ == spec_remove_image(
                    old(image).data@,
                    w,
                    h,
                    self.spec_map(sel),
                    size,
                    size,
                    spec_pos(w, size, margin),
                    spec_pos(h, size, margin),
                    255,
                )
            }),
    {
        proof {
            use_type_invariant(&*self);
        }
        let sel = match force_size {
            Some(s) => s,
            None => self.watermark_size_for(image.width, image.height),
        };
        let (wm_size, margin) = self.config(image.width, image.height, force_size);
        let (pos_x, pos_y) = self.position(image.width, image.height, wm_size, margin);
        match sel {
            WatermarkSize::Small => remove_watermark_alpha_blend(
                image,
                &self.alpha_map_small,
                wm_size,
                wm_size,
                pos_x,
                pos_y,
                self.logo_value,
            ),
            WatermarkSize::Large => remove_watermark_alpha_blend(
                image,
                &self.alpha_map_large,
                wm_size,
                wm_size,
                pos_x,
                pos_y,
                self.logo_value,
            ),
        }
    }

    /// Process one loaded image: skip it when it is too small for the
    /// selected watermark region, skip it when detection finds nothing above
    /// the caller's threshold (unless forced), otherwise reverse-blend the
    /// region in place. A skip is a success and leaves the image bit-exact
    /// unchanged.
    pub fn process_image(&self, image: &mut Image, opts: &ProcessOptions) -> (r: ProcessResult)
        requires
            old(image).wf(),
            0 <= opts.threshold <= SCORE_SCALE,
        ensures
            final(image).wf(),
            final(image).width == old(image).width,
            final(image).height == old(image).height,
            ({
                let w = old(image).width as int;
                let h = old(image).height as int;
                let sel = spec_selected(opts.force_size, w, h);
                let size = spec_size_px(sel);
                let margin = spec_margin_px(sel);
                let det = spec_detect(
                    old(image).data@,
                    w,
                    h,
                    self.spec_map(sel),
                    size,
                    size,
                    spec_pos(w, size, margin),
                    spec_pos(h, size, margin),
                    opts.threshold as int,
                );
                if w < size + margin || h < size + margin {
                    r == (ProcessResult {
                        success: true,
                        skipped: true,
                        confidence: 0,
                        status: ProcessStatus::TooSmall {
                            width: old(image).width,
                            height: old(image).height,
                            wm_size: spec_size_px(sel) as u32,
                        },
                    }) && final(image).data@ == old(image).data@
                } else if !opts.force && !det.detected && det.confidence < opts.threshold {
                    r == (ProcessResult {
                        success: true,
                        skipped: true,
                        confidence: det.confidence,
                        status: ProcessStatus::NoWatermark {
                            spatial_score: det.spatial_score,
                            gradient_score: det.gradient_score,
                            variance_score: det.variance_score,
                        },
                    }) && final(image).data@ == old(image).data@
                } else {
                    r == (ProcessResult {
                        success: true,
                        skipped: false,
                        confidence: if opts.force {
                            0
                        } else {
                            det.confidence
                        },
                        status: ProcessStatus::Removed,
                    }) && final(image).data@ == spec_remove_image(
                        old(image).data@,
                        w,
                        h,
                        self.spec_map(sel),
                        size,
                        size,
                        spec_pos(w, size, margin),
                        spec_pos(h, size, margin),
                        255,
                    )
                }
            }),
    {
        let w = image.width;
        let h = image.height;
        let (wm_size, margin) = self.config(w, h, opts.force_size);
        if w < wm_size + margin || h < wm_size + margin {
            return ProcessResult {
                success: true,
                skipped: true,
                confidence: 0,
                status: ProcessStatus::TooSmall { width: w, height: h, wm_size },
            };
        }
        let mut confidence: i64 = 0;
        if !opts.force {
            let det = self.detect(image, opts);
            confidence = det.confidence;
            if !det.detected && det.confidence < opts.threshold {
                return ProcessResult {
                    success: true,
                    skipped: true,
                    confidence: det.confidence,
                    status: ProcessStatus::NoWatermark {
                        spatial_score: det.spatial_score,
                        gradient_score: det.gradient_score,
                        variance_score: det.variance_score,
                    },
                };
            }
        }
        self.remove(image, opts.force_size);
        ProcessResult { success: true, skipped: false, confidence, status: ProcessStatus::Removed }
    }
}

} // verus!
