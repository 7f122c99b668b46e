//! Tests for the path-name helpers.

use watermark_core::paths::{default_output_path, is_supported_image};

#[test]
fn default_output_path_appends_cleaned_suffix() {
    let p = default_output_path(b"/tmp/photo.jpg");
    assert_eq!(p, b"/tmp/photo_cleaned.jpg".to_vec());

    let p = default_output_path(b"image.png");
    assert_eq!(p, b"image_cleaned.png".to_vec());
}

#[test]
fn default_output_path_without_extension_keeps_stem() {
    let p = default_output_path(b"/data/photo");
    assert_eq!(p, b"/data/photo_cleaned.".to_vec());
}

#[test]
fn is_supported_image_accepts_common_formats() {
    assert!(is_supported_image(b"photo.jpg"));
    assert!(is_supported_image(b"photo.JPEG"));
    assert!(is_supported_image(b"photo.png"));
    assert!(is_supported_image(b"photo.webp"));
    assert!(is_supported_image(b"photo.bmp"));
}

#[test]
fn is_supported_image_rejects_unsupported_formats() {
    assert!(!is_supported_image(b"photo.gif"));
    assert!(!is_supported_image(b"photo.txt"));
    assert!(!is_supported_image(b"photo"));
}

#[test]
fn is_supported_image_ignores_dots_in_directories() {
    assert!(is_supported_image(b"/a.b/c.png"));
    assert!(!is_supported_image(b"/a.png/c"));
    assert!(!is_supported_image(b".png"));
}
