//! Tests for opacity-map construction and the reverse blend.

use watermark_core::blending::{
    calculate_alpha_map, forward_blend_channel, remove_watermark_alpha_blend,
    reverse_blend_channel,
};
use watermark_core::error::Error;
use watermark_core::raster::Image;

fn png_bytes_patterned(w: u32, h: u32) -> Vec<u8> {
    let img = image::RgbImage::from_fn(w, h, |x, y| {
        image::Rgb([((x + y) % 256) as u8, (x % 256) as u8, (y % 256) as u8])
    });
    let mut buf = std::io::Cursor::new(Vec::new());
    image::DynamicImage::ImageRgb8(img)
        .write_to(&mut buf, image::ImageFormat::Png)
        .unwrap();
    buf.into_inner()
}

fn png_bytes_solid(w: u32, h: u32, px: [u8; 3]) -> Vec<u8> {
    let img = image::RgbImage::from_fn(w, h, |_, _| image::Rgb(px));
    let mut buf = std::io::Cursor::new(Vec::new());
    image::DynamicImage::ImageRgb8(img)
        .write_to(&mut buf, image::ImageFormat::Png)
        .unwrap();
    buf.into_inner()
}

#[test]
fn alpha_map_48_loads_with_correct_dimensions() {
    let (map, w, h) = calculate_alpha_map(&png_bytes_patterned(48, 48)).unwrap();
    assert_eq!(w, 48);
    assert_eq!(h, 48);
    assert_eq!(map.len(), 48 * 48);
    for &a in &map {
        assert!((0..=10000).contains(&a));
    }
}

#[test]
fn alpha_map_96_loads_with_correct_dimensions() {
    let (map, w, h) = calculate_alpha_map(&png_bytes_patterned(96, 96)).unwrap();
    assert_eq!(w, 96);
    assert_eq!(h, 96);
    assert_eq!(map.len(), 96 * 96);
}

#[test]
fn alpha_map_values_follow_max_channel() {
    // A solid capture of (200, 64, 100) has max channel 200, so every
    // opacity is 200 * 10000 / 255 = 7843; a garbage decode would not.
    let (map, _, _) = calculate_alpha_map(&png_bytes_solid(8, 8, [200, 64, 100])).unwrap();
    assert_eq!(map.len(), 64);
    for &a in &map {
        assert_eq!(a, 7843);
    }
    // Pure white recovers full opacity; pure black none.
    let (white, _, _) = calculate_alpha_map(&png_bytes_solid(4, 4, [255, 255, 255])).unwrap();
    assert!(white.iter().all(|&a| a == 10000));
    let (black, _, _) = calculate_alpha_map(&png_bytes_solid(4, 4, [0, 0, 0])).unwrap();
    assert!(black.iter().all(|&a| a == 0));
}

#[test]
fn alpha_map_decode_failure_is_reported() {
    let r = calculate_alpha_map(b"definitely not an image");
    assert!(matches!(r, Err(Error::AlphaMapDecode(_))));
}

fn solid_image(w: u32, h: u32, px: [u8; 3]) -> Image {
    let mut img = Image::new_black(w, h);
    for y in 0..h {
        for x in 0..w {
            for c in 0..3 {
                img.set_channel(x, y, c, px[c]);
            }
        }
    }
    img
}

fn channel_at(img: &Image, x: u32, y: u32, c: usize) -> u8 {
    img.data[(y as usize * img.width as usize + x as usize) * 3 + c]
}

#[test]
fn reverse_blend_recovers_original_within_tolerance() {
    let mut original = solid_image(100, 100, [128, 64, 200]);
    let original_copy = solid_image(100, 100, [128, 64, 200]);

    let size: u32 = 10;
    // Opacity ramp 0 .. 0.495 in steps of 0.005 (50 fixed-point units).
    let alpha_map: Vec<i64> = (0..size * size).map(|i| (i as i64) * 50).collect();

    let pos_x: u32 = 50;
    let pos_y: u32 = 50;

    // Apply the forward blend over the region, as the watermarker would.
    for dy in 0..size {
        for dx in 0..size {
            let alpha = alpha_map[(dy * size + dx) as usize];
            if alpha < 20 {
                continue;
            }
            for c in 0..3 {
                let orig = channel_at(&original, pos_x + dx, pos_y + dy, c);
                let blended = forward_blend_channel(orig, alpha, 255);
                original.set_channel(pos_x + dx, pos_y + dy, c, blended);
            }
        }
    }

    remove_watermark_alpha_blend(&mut original, &alpha_map, size, size, pos_x, pos_y, 255);

    for dy in 0..size {
        for dx in 0..size {
            for c in 0..3 {
                let restored = channel_at(&original, pos_x + dx, pos_y + dy, c);
                let orig = channel_at(&original_copy, pos_x + dx, pos_y + dy, c);
                let diff = (i32::from(restored) - i32::from(orig)).abs();
                assert!(
                    diff <= 2,
                    "Pixel ({dx},{dy}) ch {c} diff {diff} (restored={restored}, orig={orig})"
                );
            }
        }
    }
}

#[test]
fn low_opacity_pixels_are_left_bit_exact() {
    // Opacities below 0.002 (20 fixed-point units) leave the pixel untouched.
    let mut img = solid_image(30, 30, [99, 150, 7]);
    let reference = solid_image(30, 30, [99, 150, 7]);
    let mut alpha_map: Vec<i64> = vec![19; 16];
    alpha_map[5] = 5000;
    remove_watermark_alpha_blend(&mut img, &alpha_map, 4, 4, 10, 10, 255);
    for y in 0..30 {
        for x in 0..30 {
            let in_region = (10..14).contains(&x) && (10..14).contains(&y);
            let local = if in_region {
                ((y - 10) * 4 + (x - 10)) as usize
            } else {
                0
            };
            for c in 0..3 {
                let now = channel_at(&img, x, y, c);
                let before = channel_at(&reference, x, y, c);
                if in_region && alpha_map[local] >= 20 {
                    // The one strong pixel was reverse-blended.
                    assert_ne!(now, before);
                } else {
                    assert_eq!(now, before, "pixel ({x},{y}) ch {c} must be untouched");
                }
            }
        }
    }
}

#[test]
fn reverse_blend_channel_inverts_known_values() {
    // alpha 0.5: watermarked = 0.5*255 + 0.5*100 = 177 (truncated),
    // reverse: (177 - 0.5*255) / 0.5 = 99.
    let blended = forward_blend_channel(100, 5000, 255);
    assert_eq!(blended, 177);
    assert_eq!(reverse_blend_channel(177, 5000, 255), 99);
    // Opacity is clamped at 0.99: a fully opaque pixel divides by 0.01.
    assert_eq!(reverse_blend_channel(255, 10000, 255), 255);
    // Negative numerators clamp to zero.
    assert_eq!(reverse_blend_channel(0, 9000, 255), 0);
}
