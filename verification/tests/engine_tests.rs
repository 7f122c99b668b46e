//! Integration tests for the watermark engine.

use watermark_core::engine::{
    ProcessOptions, ProcessStatus, WatermarkEngine, WatermarkSize,
};
use watermark_core::error::Error;
use watermark_core::raster::Image;

fn capture_png(w: u32, h: u32) -> Vec<u8> {
    let img = image::RgbImage::from_fn(w, h, |x, y| {
        let v = (255 - ((x * 5 + y * 3) % 200)) as u8;
        image::Rgb([v, v, v])
    });
    let mut buf = std::io::Cursor::new(Vec::new());
    image::DynamicImage::ImageRgb8(img)
        .write_to(&mut buf, image::ImageFormat::Png)
        .unwrap();
    buf.into_inner()
}

fn engine() -> WatermarkEngine {
    WatermarkEngine::new(&capture_png(48, 48), &capture_png(96, 96)).unwrap()
}

#[test]
fn engine_initializes_successfully() {
    let e = WatermarkEngine::new(&capture_png(48, 48), &capture_png(96, 96));
    assert!(e.is_ok());
}

#[test]
fn engine_rejects_wrong_capture_dimensions() {
    let e = WatermarkEngine::new(&capture_png(48, 40), &capture_png(96, 96));
    assert!(matches!(
        e,
        Err(Error::MaskDimensions { width: 48, height: 40, expected: 48 })
    ));
    let e = WatermarkEngine::new(&capture_png(48, 48), &capture_png(95, 96));
    assert!(matches!(
        e,
        Err(Error::MaskDimensions { width: 95, height: 96, expected: 96 })
    ));
}

#[test]
fn engine_rejects_undecodable_capture() {
    let e = WatermarkEngine::new(b"junk bytes", &capture_png(96, 96));
    assert!(matches!(e, Err(Error::AlphaMapDecode(_))));
}

#[test]
fn detect_returns_low_confidence_for_blank_image() {
    let engine = engine();
    let img = Image::new_black(200, 200);
    let opts = ProcessOptions::default();
    let result = engine.detect(&img, &opts);
    assert!(!result.detected);
    assert!(result.confidence < 100_000);
}

#[test]
fn detect_returns_low_confidence_for_large_blank_image() {
    let engine = engine();
    let img = Image::new_black(2048, 2048);
    let opts = ProcessOptions::default();
    let result = engine.detect(&img, &opts);
    assert!(!result.detected);
}

#[test]
fn remove_does_not_crash_on_blank_image() {
    let engine = engine();
    let mut img = Image::new_black(200, 200);
    engine.remove(&mut img, None);
}

#[test]
fn remove_does_not_crash_on_large_blank_image() {
    let engine = engine();
    let mut img = Image::new_black(2048, 2048);
    engine.remove(&mut img, Some(WatermarkSize::Large));
}

#[test]
fn watermark_size_selection_matches_spec() {
    let engine = engine();
    assert_eq!(engine.watermark_size_for(800, 600), WatermarkSize::Small);
    assert_eq!(engine.watermark_size_for(1024, 1024), WatermarkSize::Small);
    assert_eq!(engine.watermark_size_for(2048, 512), WatermarkSize::Small);
    assert_eq!(engine.watermark_size_for(1025, 1025), WatermarkSize::Large);
    assert_eq!(engine.watermark_size_for(4096, 4096), WatermarkSize::Large);
}

#[test]
fn watermark_size_small_when_either_dim_lte_1024() {
    let engine = engine();
    assert_eq!(engine.watermark_size_for(800, 600), WatermarkSize::Small);
    assert_eq!(engine.watermark_size_for(1024, 1024), WatermarkSize::Small);
    assert_eq!(engine.watermark_size_for(2048, 512), WatermarkSize::Small);
    assert_eq!(engine.watermark_size_for(512, 2048), WatermarkSize::Small);
}

#[test]
fn watermark_size_large_when_both_dims_gt_1024() {
    let engine = engine();
    assert_eq!(engine.watermark_size_for(1025, 1025), WatermarkSize::Large);
    assert_eq!(engine.watermark_size_for(2048, 2048), WatermarkSize::Large);
}

#[test]
fn force_size_overrides_detection() {
    let engine = engine();
    let img = Image::new_black(200, 200);
    let opts = ProcessOptions {
        force_size: Some(WatermarkSize::Small),
        ..ProcessOptions::default()
    };
    let result = engine.detect(&img, &opts);
    assert!(!result.detected);
}

#[test]
fn process_image_skips_too_small_images() {
    let engine = engine();
    let mut img = Image::new_black(50, 50);
    let reference = Image::new_black(50, 50);
    let opts = ProcessOptions::default();
    let r = engine.process_image(&mut img, &opts);
    assert!(r.success);
    assert!(r.skipped);
    assert_eq!(r.confidence, 0);
    assert!(matches!(
        r.status,
        ProcessStatus::TooSmall { width: 50, height: 50, wm_size: 48 }
    ));
    assert_eq!(img.data, reference.data);
}

#[test]
fn process_image_skips_blank_image_without_force() {
    let engine = engine();
    let mut img = Image::new_black(200, 200);
    let reference = Image::new_black(200, 200);
    let opts = ProcessOptions::default();
    let r = engine.process_image(&mut img, &opts);
    assert!(r.success);
    assert!(r.skipped);
    assert!(matches!(r.status, ProcessStatus::NoWatermark { .. }));
    assert_eq!(img.data, reference.data);
}

#[test]
fn process_image_forced_removes_unconditionally() {
    let engine = engine();
    let mut img = Image::new_black(200, 200);
    let opts = ProcessOptions {
        force: true,
        ..ProcessOptions::default()
    };
    let r = engine.process_image(&mut img, &opts);
    assert!(r.success);
    assert!(!r.skipped);
    assert_eq!(r.confidence, 0);
    assert!(matches!(r.status, ProcessStatus::Removed));
}
