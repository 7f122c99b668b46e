//! Unit tests for the fixed-point detection statistics.

use watermark_core::detection::{detect_watermark, ncc, sobel_magnitude, stddev};
use watermark_core::raster::Image;
use watermark_core::SCORE_SCALE;

fn as_float(score: i64) -> f64 {
    score as f64 / SCORE_SCALE as f64
}

#[test]
fn ncc_returns_one_for_perfect_match() {
    // 0.1, 0.5, 0.9, 0.3, 0.7 at a fixed-point scale of 10^4.
    let a: Vec<i64> = vec![1000, 5000, 9000, 3000, 7000];
    let score = ncc(&a, &a);
    assert!(
        (as_float(score) - 1.0).abs() < 1e-5,
        "Perfect match should give NCC ~1.0, got {}",
        as_float(score)
    );
}

#[test]
fn ncc_returns_negative_one_for_inverse() {
    let a: Vec<i64> = vec![1000, 5000, 9000, 3000, 7000];
    let b: Vec<i64> = a.iter().map(|v| 10000 - v).collect();
    let score = ncc(&a, &b);
    assert!(
        (as_float(score) + 1.0).abs() < 1e-5,
        "Inverse should give NCC ~-1.0, got {}",
        as_float(score)
    );
}

#[test]
fn ncc_returns_low_for_uncorrelated() {
    let a: Vec<i64> = vec![10000, 0, 10000, 0, 10000, 0, 10000, 0];
    let b: Vec<i64> = vec![10000, 10000, 0, 0, 10000, 10000, 0, 0];
    let score = ncc(&a, &b);
    assert!(
        as_float(score).abs() < 0.5,
        "Weakly correlated signals should give low NCC, got {}",
        as_float(score)
    );
}

#[test]
fn ncc_of_empty_slices_is_zero() {
    let score = ncc(&Vec::new(), &Vec::new());
    assert!(score == 0, "NCC of empty slices should be 0, got {score}");
}

#[test]
fn stddev_of_empty_slice_is_zero() {
    assert_eq!(stddev(&Vec::new()), 0);
}

#[test]
fn stddev_of_constant_values_is_zero() {
    // 0.42 in luminance units (x 255000).
    let data: Vec<i64> = vec![107100; 100];
    assert_eq!(stddev(&data), 0, "Constant values should have stddev 0");
}

#[test]
fn stddev_of_known_values() {
    // stddev of [1, 2, 3, 4, 5] = sqrt(2.0), samples in luminance units.
    let data: Vec<i64> = vec![255000, 510000, 765000, 1020000, 1275000];
    let sd = as_float(stddev(&data));
    let expected = 2.0f64.sqrt();
    assert!(
        (sd - expected).abs() < 1e-5,
        "Expected stddev ~{expected}, got {sd}"
    );
}

#[test]
fn detect_returns_result_for_small_image_with_clipping() {
    // Image smaller than watermark region: the region is clipped, no panic.
    let img = Image::new_black(20, 20);
    let alpha_map: Vec<i64> = vec![3000; 48 * 48];
    let result = detect_watermark(&img, &alpha_map, 48, 48, 0, 0, 250_000);
    assert!(!result.detected);
}

#[test]
fn detect_circuit_breaker_rejects_low_spatial() {
    // A uniform image has zero spatial NCC with any opacity pattern, so the
    // circuit breaker stops the pipeline: gradient and variance stay 0.
    let img = Image::new_black(100, 100);
    let alpha_map: Vec<i64> = (0..48 * 48).map(|i| (i % 5) * 1000).collect();
    let result = detect_watermark(&img, &alpha_map, 48, 48, 20, 20, 250_000);
    assert_eq!(result.gradient_score, 0);
    assert_eq!(result.variance_score, 0);
    assert!(!result.detected);
}

#[test]
fn sobel_returns_zero_for_flat_image() {
    // 0.5 in luminance units.
    let data: Vec<i64> = vec![127500; 10 * 10];
    let grad = sobel_magnitude(&data, 10, 10);
    for &g in &grad {
        assert_eq!(g, 0, "Flat image should have zero gradient");
    }
}

#[test]
fn sobel_detects_vertical_edge() {
    // Columns 5.. hold 1.0 (in luminance units), the rest 0.
    let mut data: Vec<i64> = vec![0; 10 * 10];
    for y in 0..10 {
        for x in 5..10 {
            data[y * 10 + x] = 255000;
        }
    }
    let grad = sobel_magnitude(&data, 10, 10);
    let center_grad = grad[5 * 10 + 5] as f64 / 255000.0;
    assert!(
        center_grad > 0.1,
        "Edge should produce non-zero gradient, got {center_grad}"
    );
}

#[test]
fn sobel_step_edge_magnitude_is_four_times_the_step() {
    // At the column just left of a hard vertical step the magnitude is
    // exactly four times the step height.
    let mut data: Vec<i64> = vec![0; 10 * 10];
    for y in 0..10 {
        for x in 5..10 {
            data[y * 10 + x] = 1000;
        }
    }
    let grad = sobel_magnitude(&data, 10, 10);
    assert_eq!(grad[4 * 10 + 4], 4000);
}

#[test]
fn detect_on_all_black_image_scores_zero() {
    let img = Image::new_black(300, 300);
    let alpha_map: Vec<i64> = (0..48 * 48).map(|i| (i % 7) * 1000).collect();
    let result = detect_watermark(&img, &alpha_map, 48, 48, 220, 220, 250_000);
    assert!(!result.detected);
    assert_eq!(result.confidence, 0);
    assert!(as_float(result.confidence) < 0.1);
}

#[test]
fn detect_with_zero_threshold_on_constant_image_scores_zero() {
    // With threshold 0 the circuit breaker cannot trip, so the gradient and
    // variance stages run; on a constant image they still score zero.
    let img = Image::new_black(300, 300);
    let alpha_map: Vec<i64> = (0..48 * 48).map(|i| (i % 7) * 1000).collect();
    let result = detect_watermark(&img, &alpha_map, 48, 48, 220, 220, 0);
    assert_eq!(result.confidence, 0);
    assert!(!result.detected);
}

#[test]
fn detect_empty_intersection_gives_zero_result() {
    let img = Image::new_black(10, 10);
    let alpha_map: Vec<i64> = vec![5000; 48 * 48];
    // Position entirely outside the image.
    let result = detect_watermark(&img, &alpha_map, 48, 48, 100, 100, 250_000);
    assert!(!result.detected);
    assert_eq!(result.confidence, 0);
    assert_eq!(result.spatial_score, 0);
    assert_eq!(result.gradient_score, 0);
    assert_eq!(result.variance_score, 0);
}
