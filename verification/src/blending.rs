//! Alpha-blending math for watermark removal.
//!
//! The watermark is assumed to have been applied by forward alpha blending,
//! `watermarked = alpha * logo + (1 - alpha) * original`, per channel. This
//! module recovers original pixels by the algebraic inverse of that equation.
//!
//! Opacities are fixed-point numerators over [`crate::ALPHA_SCALE`].

use vstd::prelude::*;

use crate::ALPHA_SCALE;
use crate::error::Error;
use crate::raster::{Image, pixel_index, spec_channel};

verus! {

/// Opacities below this (0.002) have negligible effect and are skipped, so
/// quantization noise is not amplified.
pub const ALPHA_THRESHOLD_Q: i64 = 20;

/// Opacities are clamped to this (0.99) before inverting, so the division
/// cannot blow up.
pub const MAX_ALPHA_Q: i64 = 9_900;

/// The maximum of the three channels of pixel `(x, y)`.
pub open spec fn spec_max_channel(data: Seq<u8>, imgw: int, x: int, y: int) -> int {
    let r = spec_channel(data, imgw, x, y, 0) as int;
    let g = spec_channel(data, imgw, x, y, 1) as int;
    let b = spec_channel(data, imgw, x, y, 2) as int;
    if r >= g && r >= b {
        r
    } else if g >= b {
        g
    } else {
        b
    }
}

/// Opacity recovered from a capture pixel of maximal channel `m` over a white
/// background: `m / 255`, as a numerator over [`ALPHA_SCALE`].
pub open spec fn spec_alpha_q(m: int) -> int {
    m * ALPHA_SCALE / 255
}

/// The opacity map of a reference capture: one opacity per pixel, row-major.
pub open spec fn spec_alpha_map(data: Seq<u8>, w: int, h: int) -> Seq<i64> {
    Seq::new((w * h) as nat, |j: int| (spec_alpha_q(spec_max_channel(data, w, j % w, j / w))) as i64)
}

/// What decoding a reference capture yields: `None` when the bytes are not a
/// decodable image, otherwise the width, height and flat RGB8 bytes of the
/// decoded picture. Decoding depends on the bytes alone, so the result can
/// be named; [`decode_rgb_image`] is the one function that computes it.
pub uninterp spec fn decoded_rgb_of(bytes: Seq<u8>) -> Option<(u32, u32, Seq<u8>)>;

/// Relies on `image::load_from_memory` and `DynamicImage::to_rgb8` of the
/// image crate: decodes a byte stream into an RGB8 buffer whose raw layout is
/// three bytes per pixel, row-major, `3 * width * height` bytes in all (the
/// documented layout of `ImageBuffer::into_raw`); the decoded picture is a
/// function of the bytes alone, named [`decoded_rgb_of`]. On failure returns
/// the decoder's message.
#[verifier::external_body]
fn decode_rgb_image(png_bytes: &[u8]) -> (r: Result<Image, String>)
    ensures
        ((r is Ok) == (decoded_rgb_of(png_bytes@) is Some)),
        (r matches Ok(img) ==> img.wf() && decoded_rgb_of(png_bytes@) == Some(
            (img.width, img.height, img.data@),
        )),
{
    match image::load_from_memory(png_bytes) {
        Ok(decoded) => {
            let rgb = decoded.to_rgb8();
            let width = rgb.width();
            let height = rgb.height();
            Ok(Image { width, height, data: rgb.into_raw() })
        },
        Err(e) => Err(e.to_string()),
    }
}

/// Build the opacity map of a decoded reference capture: for each pixel,
/// opacity = max(R, G, B) / 255, as a numerator over [`ALPHA_SCALE`]. The
/// capture shows the logo rendered over a pure-white background, so the
/// maximal channel approximates the blend alpha.
pub fn build_alpha_map(img: &Image) -> (m: Vec<i64>)
    requires
        img.wf(),
    ensures
        m@ == spec_alpha_map(img.data@, img.width as int, img.height as int),
        m@.len() == (img.width as int) * (img.height as int),
        forall|j: int| 0 <= j < m@.len() ==> 0 <= #[trigger] m@[j] <= ALPHA_SCALE,
{
    let ghost mspec = spec_alpha_map(img.data@, img.width as int, img.height as int);
    let w = img.width;
    let h = img.height;
    let mut m: Vec<i64> = Vec::new();
    let mut dy: u32 = 0;
    while dy < h
        invariant
            dy <= h,
            img.wf(),
            w == img.width,
            h == img.height,
            mspec == spec_alpha_map(img.data@, img.width as int, img.height as int),
            m@.len() == dy * w,
            forall|j: int| 0 <= j < m@.len() ==> m@[j] == mspec[j],
            forall|j: int| 0 <= j < m@.len() ==> 0 <= #[trigger] m@[j] <= ALPHA_SCALE,
        decreases h - dy,
    {
        let mut dx: u32 = 0;
        while dx < w
            invariant
                dx <= w,
                dy < h,
                img.wf(),
                w == img.width,
                h == img.height,
                mspec == spec_alpha_map(img.data@, img.width as int, img.height as int),
                m@.len() == dy * w + dx,
                forall|j: int| 0 <= j < m@.len() ==> m@[j] == mspec[j],
                forall|j: int| 0 <= j < m@.len() ==> 0 <= #[trigger] m@[j] <= ALPHA_SCALE,
            decreases w - dx,
        {
            let r = img.channel(dx, dy, 0);
            let g = img.channel(dx, dy, 1);
            let b = img.channel(dx, dy, 2);
            let mut mx: u8 = r;
            if g > mx {
                mx = g;
            }
            if b > mx {
                mx = b;
            }
            let alpha: i64 = ((mx as i64) * ALPHA_SCALE) / 255;
            proof {
                let j = dy * w + dx;
                vstd::arithmetic::div_mod::lemma_fundamental_div_mod_converse(
                    j as int,
                    w as int,
                    dy as int,
                    dx as int,
                );
                assert(0 <= j < (w as int) * (h as int)) by (nonlinear_arith)
                    requires
                        0 <= dx < w,
                        0 <= dy < h,
                        j == dy * w + dx,
                ;
                assert(mx as int == spec_max_channel(img.data@, img.width as int, dx as int, dy as int));
                vstd::arithmetic::div_mod::lemma_div_is_ordered(
                    (mx as int) * (ALPHA_SCALE as int),
                    255 * (ALPHA_SCALE as int),
                    255,
                );
                assert(0 <= alpha) by {
                    vstd::arithmetic::div_mod::lemma_div_is_ordered(
                        0,
                        (mx as int) * (ALPHA_SCALE as int),
                        255,
                    );
                }
                assert(mspec[j as int] == alpha);
            }
            m.push(alpha);
            dx = dx + 1;
        }
        proof {
            assert(dy * w + w == (dy + 1) * w) by (nonlinear_arith);
        }
        dy = dy + 1;
    }
    proof {
        assert(h * w == w * h) by (nonlinear_arith);
        assert(m@ =~= mspec);
    }
    m
}

/// Decode a reference capture and derive its opacity map: per pixel,
/// opacity = max(R, G, B) / 255 over [`ALPHA_SCALE`]. Returns
/// [`spec_alpha_map`] of the decoded picture ([`decoded_rgb_of`]) together
/// with the capture's width and height, and fails with
/// [`Error::AlphaMapDecode`] exactly when the bytes cannot be decoded.
pub fn calculate_alpha_map(png_bytes: &[u8]) -> (r: Result<(Vec<i64>, u32, u32), Error>)
    ensures
        ((r is Ok) == (decoded_rgb_of(png_bytes@) is Some)),
        (r matches Ok(t) ==> decoded_rgb_of(png_bytes@) matches Some(d) && t.1 == d.0 && t.2
            == d.1 && t.0@ == spec_alpha_map(d.2, d.0 as int, d.1 as int)),
        (r matches Ok(t) ==> t.0@.len() == (t.1 as int) * (t.2 as int)),
        (r matches Ok(t) ==> forall|j: int|
            0 <= j < t.0@.len() ==> 0 <= #[trigger] t.0@[j] <= ALPHA_SCALE),
        (r matches Err(e) ==> e matches Error::AlphaMapDecode(_)),
{
    match decode_rgb_image(png_bytes) {
        Ok(img) => {
            let m = build_alpha_map(&img);
            Ok((m, img.width, img.height))
        },
        Err(msg) => Err(Error::AlphaMapDecode(msg)),
    }
}

/// Recover one original channel value from a watermarked one:
/// `(watermarked - alpha * logo) / (1 - alpha)` with the opacity clamped to
/// [`MAX_ALPHA_Q`] and the result clamped to the 8-bit range.
pub open spec fn spec_reverse_channel(w: int, q: int, logo: int) -> int {
    let qc = if q < MAX_ALPHA_Q {
        q
    } else {
        MAX_ALPHA_Q as int
    };
    let den = (ALPHA_SCALE as int) - qc;
    let num = (ALPHA_SCALE as int) * w - qc * logo;
    if num <= 0 {
        0
    } else if num / den > 255 {
        255
    } else {
        num / den
    }
}

/// One forward-composited channel value:
/// `(alpha * logo + (1 - alpha) * original)`, rounded down to 8 bits.
pub open spec fn spec_forward_channel(o: int, q: int, logo: int) -> int {
    (q * logo + (ALPHA_SCALE - q) * o) / (ALPHA_SCALE as int)
}

/// Invert the forward blend for one channel: exactly
/// [`spec_reverse_channel`].
pub fn reverse_blend_channel(watermarked: u8, alpha_q: i64, logo_value: u8) -> (r: u8)
    requires
        0 <= alpha_q <= ALPHA_SCALE,
    ensures
        r as int == spec_reverse_channel(watermarked as int, alpha_q as int, logo_value as int),
{
    let qc: i64 = if alpha_q < MAX_ALPHA_Q {
        alpha_q
    } else {
        MAX_ALPHA_Q
    };
    let den: i64 = ALPHA_SCALE - qc;
    proof {
        assert(0 <= qc * (logo_value as int) <= 9_900 * 255) by (nonlinear_arith)
            requires
                0 <= qc <= 9_900,
                0 <= logo_value <= 255,
        ;
    }
    let num: i64 = ALPHA_SCALE * (watermarked as i64) - qc * (logo_value as i64);
    if num <= 0 {
        0
    } else {
        let d: i64 = num / den;
        if d > 255 {
            255
        } else {
            d as u8
        }
    }
}

/// Apply the forward blend to one channel: exactly [`spec_forward_channel`].
pub fn forward_blend_channel(original: u8, alpha_q: i64, logo_value: u8) -> (r: u8)
    requires
        0 <= alpha_q <= ALPHA_SCALE,
    ensures
        r as int == spec_forward_channel(original as int, alpha_q as int, logo_value as int),
{
    proof {
        assert(0 <= alpha_q * (logo_value as int) + (ALPHA_SCALE - alpha_q) * (original as int)
            <= 10_000 * 255) by (nonlinear_arith)
            requires
                0 <= alpha_q <= 10_000,
                0 <= logo_value <= 255,
                0 <= original <= 255,
        ;
    }
    let num: i64 = alpha_q * (logo_value as i64) + (ALPHA_SCALE - alpha_q) * (original as i64);
    let r: i64 = num / ALPHA_SCALE;
    proof {
        vstd::arithmetic::div_mod::lemma_div_is_ordered(num as int, 2_550_000, ALPHA_SCALE as int);
        vstd::arithmetic::div_mod::lemma_div_is_ordered(0, num as int, ALPHA_SCALE as int);
    }
    r as u8
}


/// The image buffer after reverse-blending the clipped watermark region:
/// byte `i` is replaced exactly when its pixel lies in the clipped region and
/// the opacity there is at least [`ALPHA_THRESHOLD_Q`].
pub open spec fn spec_remove_image(
    data: Seq<u8>,
    imgw: int,
    imgh: int,
    alpha: Seq<i64>,
    wmw: int,
    wmh: int,
    px: int,
    py: int,
    logo: int,
) -> Seq<u8> {
    let x2 = if px + wmw < imgw {
        px + wmw
    } else {
        imgw
    };
    let y2 = if py + wmh < imgh {
        py + wmh
    } else {
        imgh
    };
    Seq::new(
        data.len(),
        |i: int|
            {
                let p = i / 3;
                let y = p / imgw;
                let x = p % imgw;
                if px <= x < x2 && py <= y < y2 && alpha[(y - py) * wmw + (x - px)]
                    >= ALPHA_THRESHOLD_Q {
                    (spec_reverse_channel(
                        data[i] as int,
                        alpha[(y - py) * wmw + (x - px)] as int,
                        logo,
                    )) as u8
                } else {
                    data[i]
                }
            },
    )
}

/// The reverse-blended channel value always lies in the 8-bit range.
pub proof fn lemma_reverse_channel_range(w: int, q: int, logo: int)
    requires
        0 <= q,
    ensures
        0 <= spec_reverse_channel(w, q, logo) <= 255,
{
    let qc = if q < MAX_ALPHA_Q {
        q
    } else {
        MAX_ALPHA_Q as int
    };
    let den = (ALPHA_SCALE as int) - qc;
    let num = (ALPHA_SCALE as int) * w - qc * logo;
    if num > 0 {
        vstd::arithmetic::div_mod::lemma_div_pos_is_pos(num, den);
    }
}

/// Reverse-blend the three channels of pixel `(x, y)` with opacity `alpha_q`;
/// every other byte of the image is unchanged.
fn reverse_pixel(image: &mut Image, x: u32, y: u32, alpha_q: i64, logo_value: u8)
    requires
        old(image).wf(),
        x < old(image).width,
        y < old(image).height,
        0 <= alpha_q <= ALPHA_SCALE,
    ensures
        final(image).wf(),
        final(image).width == old(image).width,
        final(image).height == old(image).height,
        forall|c: int|
            0 <= c < 3 ==> final(image).data@[pixel_index(
                old(image).width as int,
                x as int,
                y as int,
                c,
            )] == (spec_reverse_channel(
                old(image).data@[pixel_index(old(image).width as int, x as int, y as int, c)] as int,
                alpha_q as int,
                logo_value as int,
            )) as u8,
        forall|i: int|
            0 <= i < final(image).data@.len() && !(pixel_index(
                old(image).width as int,
                x as int,
                y as int,
                0,
            ) <= i <= pixel_index(old(image).width as int, x as int, y as int, 2))
                ==> final(image).data@[i] == old(image).data@[i],
{
    let w0 = image.channel(x, y, 0);
    let w1 = image.channel(x, y, 1);
    let w2 = image.channel(x, y, 2);
    let v0 = reverse_blend_channel(w0, alpha_q, logo_value);
    let v1 = reverse_blend_channel(w1, alpha_q, logo_value);
    let v2 = reverse_blend_channel(w2, alpha_q, logo_value);
    image.set_channel(x, y, 0, v0);
    image.set_channel(x, y, 1, v1);
    image.set_channel(x, y, 2, v2);
    proof {
        let wd = old(image).width as int;
        old(image).lemma_index_in_bounds(x as int, y as int, 0);
        old(image).lemma_index_in_bounds(x as int, y as int, 1);
        old(image).lemma_index_in_bounds(x as int, y as int, 2);
        lemma_reverse_channel_range(w0 as int, alpha_q as int, logo_value as int);
        lemma_reverse_channel_range(w1 as int, alpha_q as int, logo_value as int);
        lemma_reverse_channel_range(w2 as int, alpha_q as int, logo_value as int);
        assert(image.data@ == old(image).data@.update(
            pixel_index(wd, x as int, y as int, 0),
            v0,
        ).update(pixel_index(wd, x as int, y as int, 1), v1).update(
            pixel_index(wd, x as int, y as int, 2),
            v2,
        ));
    }
}

/// Remove the watermark over the region with top-left corner
/// `(pos_x, pos_y)`, in place: the buffer becomes exactly
/// [`spec_remove_image`] of the old buffer. The region is clipped to the
/// image; pixels whose opacity is below [`ALPHA_THRESHOLD_Q`] are left
/// bit-exact unchanged, and an empty clipped region leaves the whole image
/// unchanged.
pub fn remove_watermark_alpha_blend(
    image: &mut Image,
    alpha_map: &Vec<i64>,
    wm_width: u32,
    wm_height: u32,
    pos_x: u32,
    pos_y: u32,
    logo_value: u8,
)
    requires
        old(image).wf(),
        alpha_map@.len() == (wm_width as int) * (wm_height as int),
        pos_x + wm_width <= u32::MAX,
        pos_y + wm_height <= u32::MAX,
        forall|i: int|
            0 <= i < alpha_map@.len() ==> 0 <= #[trigger] alpha_map@[i] <= ALPHA_SCALE,
    ensures
        final(image).wf(),
        final(image).width == old(image).width,
        final(image).height == old(image).height,
        final(image).data@ == spec_remove_image(
            old(image).data@,
            old(image).width as int,
            old(image).height as int,
            alpha_map@,
            wm_width as int,
            wm_height as int,
            pos_x as int,
            pos_y as int,
            logo_value as int,
        ),
{
    let ghost target = spec_remove_image(
        old(image).data@,
        old(image).width as int,
        old(image).height as int,
        alpha_map@,
        wm_width as int,
        wm_height as int,
        pos_x as int,
        pos_y as int,
        logo_value as int,
    );
    let alpha_total: usize = alpha_map.len();
    let img_w = image.width;
    let img_h = image.height;
    let x2 = if pos_x + wm_width < img_w {
        pos_x + wm_width
    } else {
        img_w
    };
    let y2 = if pos_y + wm_height < img_h {
        pos_y + wm_height
    } else {
        img_h
    };
    if pos_x >= x2 || pos_y >= y2 {
        proof {
            assert forall|i: int| 0 <= i < image.data@.len() implies image.data@[i]
                == target[i] by {
                lemma_remove_index(
                    old(image).data@,
                    img_w as int,
                    img_h as int,
                    alpha_map@,
                    wm_width as int,
                    wm_height as int,
                    pos_x as int,
                    pos_y as int,
                    logo_value as int,
                    i,
                );
            }
            assert(image.data@ =~= target);
        }
        return ;
    }
    let mut dy: u32 = 0;
    while dy < y2 - pos_y
        invariant
            dy <= y2 - pos_y,
            image.wf(),
            image.width == old(image).width == img_w,
            image.height == old(image).height == img_h,
            image.data@.len() == old(image).data@.len(),
            pos_x < x2 <= img_w,
            pos_y < y2 <= img_h,
            x2 == (if pos_x + wm_width < img_w {
                pos_x + wm_width as int
            } else {
                img_w as int
            }),
            y2 == (if pos_y + wm_height < img_h {
                pos_y + wm_height as int
            } else {
                img_h as int
            }),
            alpha_map@.len() == (wm_width as int) * (wm_height as int),
            alpha_map@.len() <= usize::MAX,
            forall|i: int|
                0 <= i < alpha_map@.len() ==> 0 <= #[trigger] alpha_map@[i] <= ALPHA_SCALE,
            target == spec_remove_image(
                old(image).data@,
                img_w as int,
                img_h as int,
                alpha_map@,
                wm_width as int,
                wm_height as int,
                pos_x as int,
                pos_y as int,
                logo_value as int,
            ),
            forall|i: int|
                0 <= i < image.data@.len() ==> image.data@[i] == (if spec_byte_row(
                    img_w as int,
                    i,
                ) < pos_y + dy {
                    target[i]
                } else {
                    old(image).data@[i]
                }),
        decreases y2 - pos_y - dy,
    {
        let mut dx: u32 = 0;
        while dx < x2 - pos_x
            invariant
                dx <= x2 - pos_x,
                dy < y2 - pos_y,
                image.wf(),
                image.width == old(image).width == img_w,
                image.height == old(image).height == img_h,
                image.data@.len() == old(image).data@.len(),
                pos_x < x2 <= img_w,
                pos_y < y2 <= img_h,
                x2 == (if pos_x + wm_width < img_w {
                    pos_x + wm_width as int
                } else {
                    img_w as int
                }),
                y2 == (if pos_y + wm_height < img_h {
                    pos_y + wm_height as int
                } else {
                    img_h as int
                }),
                alpha_map@.len() == (wm_width as int) * (wm_height as int),
                alpha_map@.len() <= usize::MAX,
                forall|i: int|
                    0 <= i < alpha_map@.len() ==> 0 <= #[trigger] alpha_map@[i] <= ALPHA_SCALE,
                target == spec_remove_image(
                    old(image).data@,
                    img_w as int,
                    img_h as int,
                    alpha_map@,
                    wm_width as int,
                    wm_height as int,
                    pos_x as int,
                    pos_y as int,
                    logo_value as int,
                ),
                forall|i: int|
                    0 <= i < image.data@.len() ==> image.data@[i] == (if spec_byte_row(
                        img_w as int,
                        i,
                    ) < pos_y + dy || (spec_byte_row(img_w as int, i) == pos_y + dy
                        && spec_byte_col(img_w as int, i) < pos_x + dx) {
                        target[i]
                    } else {
                        old(image).data@[i]
                    }),
            decreases x2 - pos_x - dx,
        {
            let x = pos_x + dx;
            let y = pos_y + dy;
            proof {
                assert(dy * wm_width + dx < (wm_width as int) * (wm_height as int))
                    by (nonlinear_arith)
                    requires
                        0 <= dx,
                        0 <= dy,
                        dx < wm_width,
                        dy < wm_height,
                ;
                assert(0 <= dy * wm_width) by (nonlinear_arith)
                    requires
                        0 <= dy,
                        0 <= wm_width,
                ;
            }
            let aidx: usize = (dy as usize) * (wm_width as usize) + (dx as usize);
            let a = alpha_map[aidx];
            let ghost prev = image.data@;
            if a >= ALPHA_THRESHOLD_Q {
                reverse_pixel(image, x, y, a, logo_value);
            }
            proof {
                assert forall|i: int| 0 <= i < image.data@.len() implies image.data@[i] == (
                if spec_byte_row(img_w as int, i) < pos_y + dy || (spec_byte_row(img_w as int, i)
                    == pos_y + dy && spec_byte_col(img_w as int, i) < pos_x + dx + 1) {
                    target[i]
                } else {
                    old(image).data@[i]
                }) by {
                    lemma_remove_index(
                        old(image).data@,
                        img_w as int,
                        img_h as int,
                        alpha_map@,
                        wm_width as int,
                        wm_height as int,
                        pos_x as int,
                        pos_y as int,
                        logo_value as int,
                        i,
                    );
                    lemma_byte_coords(img_w as int, img_h as int, old(image).data@.len() as int, i);
                    let base = pixel_index(img_w as int, x as int, y as int, 0);
                    if base <= i <= base + 2 {
                        assert(spec_byte_row(img_w as int, i) == y as int && spec_byte_col(
                            img_w as int,
                            i,
                        ) == x as int) by {
                            lemma_pixel_coords(img_w as int, x as int, y as int, i - base);
                        }
                    }
                }
            }
            dx = dx + 1;
        }
        dy = dy + 1;
    }
    proof {
        assert forall|i: int| 0 <= i < image.data@.len() implies image.data@[i] == target[i] by {
            lemma_remove_index(
                old(image).data@,
                img_w as int,
                img_h as int,
                alpha_map@,
                wm_width as int,
                wm_height as int,
                pos_x as int,
                pos_y as int,
                logo_value as int,
                i,
            );
            lemma_byte_coords(img_w as int, img_h as int, old(image).data@.len() as int, i);
        }
        assert(image.data@ =~= target);
    }
}

/// Pixel row of flat byte index `i` in a raster of width `imgw`.
pub open spec fn spec_byte_row(imgw: int, i: int) -> int {
    (i / 3) / imgw
}

/// Pixel column of flat byte index `i` in a raster of width `imgw`.
pub open spec fn spec_byte_col(imgw: int, i: int) -> int {
    (i / 3) % imgw
}

/// The pixel coordinates of every byte of a well-formed raster lie inside
/// the raster.
proof fn lemma_byte_coords(imgw: int, imgh: int, len: int, i: int)
    requires
        0 < imgw,
        0 <= imgh,
        len == 3 * (imgw * imgh),
        0 <= i < len,
    ensures
        0 <= spec_byte_row(imgw, i) < imgh,
        0 <= spec_byte_col(imgw, i) < imgw,
        i == pixel_index(imgw, spec_byte_col(imgw, i), spec_byte_row(imgw, i), i % 3),
        0 <= i % 3 < 3,
{
    let p = i / 3;
    vstd::arithmetic::div_mod::lemma_fundamental_div_mod(i, 3);
    vstd::arithmetic::div_mod::lemma_fundamental_div_mod(p, imgw);
    assert(0 <= i % 3 < 3) by {
        vstd::arithmetic::div_mod::lemma_mod_bound(i, 3);
    }
    assert(0 <= p < imgw * imgh) by (nonlinear_arith)
        requires
            0 <= i < 3 * (imgw * imgh),
            i == 3 * p + i % 3,
            0 <= i % 3 < 3,
    ;
    assert(0 <= p % imgw < imgw) by {
        vstd::arithmetic::div_mod::lemma_mod_bound(p, imgw);
    }
    assert(0 <= p / imgw < imgh) by (nonlinear_arith)
        requires
            0 <= p < imgw * imgh,
            p == imgw * (p / imgw) + p % imgw,
            0 <= p % imgw < imgw,
            0 < imgw,
    ;
    assert(i == 3 * ((p / imgw) * imgw + p % imgw) + i % 3) by (nonlinear_arith)
        requires
            i == 3 * p + i % 3,
            p == imgw * (p / imgw) + p % imgw,
    ;
}

/// The byte coordinates of channel `c` of pixel `(x, y)` map back to
/// `(x, y, c)`.
proof fn lemma_pixel_coords(imgw: int, x: int, y: int, c: int)
    requires
        0 < imgw,
        0 <= x < imgw,
        0 <= y,
        0 <= c < 3,
    ensures
        spec_byte_row(imgw, pixel_index(imgw, x, y, c)) == y,
        spec_byte_col(imgw, pixel_index(imgw, x, y, c)) == x,
        pixel_index(imgw, x, y, c) % 3 == c,
{
    let i = pixel_index(imgw, x, y, c);
    assert(0 <= y * imgw + x) by (nonlinear_arith)
        requires
            0 <= x,
            0 <= y,
            0 < imgw,
    ;
    vstd::arithmetic::div_mod::lemma_fundamental_div_mod_converse(i, 3, y * imgw + x, c);
    vstd::arithmetic::div_mod::lemma_fundamental_div_mod_converse(y * imgw + x, imgw, y, x);
}

/// Unfolds one element of [`spec_remove_image`] in terms of the byte's pixel
/// coordinates.
proof fn lemma_remove_index(
    data: Seq<u8>,
    imgw: int,
    imgh: int,
    alpha: Seq<i64>,
    wmw: int,
    wmh: int,
    px: int,
    py: int,
    logo: int,
    i: int,
)
    requires
        0 <= i < data.len(),
    ensures
        ({
            let x2 = if px + wmw < imgw {
                px + wmw
            } else {
                imgw
            };
            let y2 = if py + wmh < imgh {
                py + wmh
            } else {
                imgh
            };
            let y = spec_byte_row(imgw, i);
            let x = spec_byte_col(imgw, i);
            spec_remove_image(data, imgw, imgh, alpha, wmw, wmh, px, py, logo)[i] == (if px <= x
                < x2 && py <= y < y2 && alpha[(y - py) * wmw + (x - px)] >= ALPHA_THRESHOLD_Q {
                (spec_reverse_channel(
                    data[i] as int,
                    alpha[(y - py) * wmw + (x - px)] as int,
                    logo,
                )) as u8
            } else {
                data[i]
            })
        }),
{
}


/// Round trip of the blend: forward-compositing a channel value with an
/// opacity of at most one half and then reverse-blending it recovers the
/// original value within two 8-bit steps (the loss is the forward rounding,
/// amplified by at most `1 / (1 - alpha) <= 2`). Opacities below
/// [`ALPHA_THRESHOLD_Q`] are skipped by the reverse blend, and the forward
/// blend provably does not change the value there at all.
pub proof fn lemma_forward_reverse_round_trip(o: int, q: int)
    requires
        0 <= o <= 255,
        0 <= q <= 5000,
    ensures
        ({
            let w = spec_forward_channel(o, q, 255);
            let rec = if q < ALPHA_THRESHOLD_Q {
                w
            } else {
                spec_reverse_channel(w, q, 255)
            };
            o - 2 <= rec <= o
        }),
{
    let s = ALPHA_SCALE as int;
    let a = q * 255 + (s - q) * o;
    let w = a / s;
    assert(a == s * o + q * (255 - o)) by (nonlinear_arith)
        requires
            s == 10_000,
            a == q * 255 + (s - q) * o,
    ;
    assert(0 <= q * (255 - o) <= q * 255) by (nonlinear_arith)
        requires
            0 <= q,
            0 <= o <= 255,
    ;
    if q < ALPHA_THRESHOLD_Q {
        // Negligible opacity: the forward blend rounds back to `o` exactly.
        assert(q * 255 < s) by (nonlinear_arith)
            requires
                0 <= q < 20,
                s == 10_000,
        ;
        vstd::arithmetic::div_mod::lemma_fundamental_div_mod_converse(a, s, o, q * (255 - o));
    } else {
        vstd::arithmetic::div_mod::lemma_fundamental_div_mod(a, s);
        let rho = a % s;
        assert(0 <= rho < s) by {
            vstd::arithmetic::div_mod::lemma_mod_bound(a, s);
        }
        let den = s - q;
        let num = s * w - q * 255;
        assert(num == (s - q) * o - rho) by (nonlinear_arith)
            requires
                num == s * w - q * 255,
                a == s * w + rho,
                a == s * o + q * (255 - o),
        ;
        assert(0 <= o * den) by (nonlinear_arith)
            requires
                0 <= o,
                0 <= den,
        ;
        assert(num == o * den - rho) by (nonlinear_arith)
            requires
                num == (s - q) * o - rho,
                den == s - q,
        ;
        if num <= 0 {
            // Only possible for o <= 1, and the clamped result 0 is in range.
            assert(o <= 1) by (nonlinear_arith)
                requires
                    o * den <= rho < 10_000,
                    den >= 5_000,
                    0 <= o,
            ;
        } else {
            if rho == 0 {
                vstd::arithmetic::div_mod::lemma_fundamental_div_mod_converse(num, den, o, 0);
            } else if rho <= den {
                assert(num == (o - 1) * den + (den - rho)) by (nonlinear_arith)
                    requires
                        num == o * den - rho,
                ;
                vstd::arithmetic::div_mod::lemma_fundamental_div_mod_converse(
                    num,
                    den,
                    o - 1,
                    den - rho,
                );
            } else {
                assert(num == (o - 2) * den + (2 * den - rho)) by (nonlinear_arith)
                    requires
                        num == o * den - rho,
                ;
                assert(0 <= 2 * den - rho < den) by (nonlinear_arith)
                    requires
                        den < rho < s,
                        s <= 2 * den,
                ;
                vstd::arithmetic::div_mod::lemma_fundamental_div_mod_converse(
                    num,
                    den,
                    o - 2,
                    2 * den - rho,
                );
            }
            vstd::arithmetic::div_mod::lemma_div_pos_is_pos(num, den);
        }
    }
}

/// A byte whose pixel's opacity lies below [`ALPHA_THRESHOLD_Q`] is left
/// bit-exact unchanged by the reverse blend, as is every byte outside the
/// clipped watermark region.
pub proof fn lemma_low_opacity_pixel_untouched(
    data: Seq<u8>,
    imgw: int,
    imgh: int,
    alpha: Seq<i64>,
    wmw: int,
    wmh: int,
    px: int,
    py: int,
    logo: int,
    i: int,
)
    requires
        0 <= i < data.len(),
        ({
            let y = spec_byte_row(imgw, i);
            let x = spec_byte_col(imgw, i);
            !(px <= x < px + wmw && py <= y < py + wmh) || alpha[(y - py) * wmw + (x - px)]
                < ALPHA_THRESHOLD_Q
        }),
    ensures
        spec_remove_image(data, imgw, imgh, alpha, wmw, wmh, px, py, logo)[i] == data[i],
{
}


/// Round trip of the blend over a whole image: when `blended` is the forward
/// composite of `img0` over the clipped watermark region (skipping opacities
/// below [`ALPHA_THRESHOLD_Q`], as the watermarker's own rounding makes those
/// bytes equal anyway) and every opacity is at most one half, the reverse
/// blend recovers each byte of `img0` within two 8-bit steps, and every byte
/// outside the region exactly.
pub proof fn lemma_remove_recovers_blended_image(
    img0: Seq<u8>,
    blended: Seq<u8>,
    imgw: int,
    imgh: int,
    alpha: Seq<i64>,
    wmw: int,
    wmh: int,
    px: int,
    py: int,
    i: int,
)
    requires
        0 < imgw,
        0 <= imgh,
        img0.len() == 3 * (imgw * imgh),
        blended.len() == img0.len(),
        0 <= i < img0.len(),
        ({
            let y = spec_byte_row(imgw, i);
            let x = spec_byte_col(imgw, i);
            let x2 = if px + wmw < imgw {
                px + wmw
            } else {
                imgw
            };
            let y2 = if py + wmh < imgh {
                py + wmh
            } else {
                imgh
            };
            if px <= x < x2 && py <= y < y2 {
                let q = alpha[(y - py) * wmw + (x - px)];
                0 <= q <= 5000 && (if q >= ALPHA_THRESHOLD_Q {
                    blended[i] as int == spec_forward_channel(img0[i] as int, q as int, 255)
                } else {
                    blended[i] == img0[i]
                })
            } else {
                blended[i] == img0[i]
            }
        }),
    ensures
        ({
            let rec = spec_remove_image(blended, imgw, imgh, alpha, wmw, wmh, px, py, 255)[i];
            img0[i] - 2 <= rec <= img0[i]
        }),
{
    lemma_remove_index(blended, imgw, imgh, alpha, wmw, wmh, px, py, 255, i);
    let y = spec_byte_row(imgw, i);
    let x = spec_byte_col(imgw, i);
    let x2 = if px + wmw < imgw {
        px + wmw
    } else {
        imgw
    };
    let y2 = if py + wmh < imgh {
        py + wmh
    } else {
        imgh
    };
    if px <= x < x2 && py <= y < y2 {
        let q = alpha[(y - py) * wmw + (x - px)];
        if q >= ALPHA_THRESHOLD_Q {
            lemma_forward_reverse_round_trip(img0[i] as int, q as int);
            lemma_reverse_channel_range(blended[i] as int, q as int, 255);
        }
    }
}

} // verus!
