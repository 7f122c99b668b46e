//! Three-stage watermark detection.
//!
//! The detector scores the likelihood that the watermark pattern occupies a
//! given region, as a weighted ensemble of three stages: spatial normalized
//! cross-correlation (NCC) against the opacity map, NCC of Sobel gradient
//! magnitudes (edge signature), and variance dampening against a reference
//! patch above the region.
//!
//! All scores are fixed-point: a score of [`crate::SCORE_SCALE`] stands
//! for 1.0. Grayscale samples are luminance numerators over [`GRAY_SCALE`],
//! opacities are numerators over [`crate::ALPHA_SCALE`].

use vstd::prelude::*;
use vstd::arithmetic::div_mod::{lemma_fundamental_div_mod_converse, lemma_div_is_ordered};

use crate::SCORE_SCALE;
use crate::numeric::{
    is_isqrt, isqrt_u128, lemma_isqrt_unique, spec_isqrt, sum64, sum_mul64,
};
use crate::raster::{Image, spec_channel};

verus! {

/// Largest sample count the statistics accept: one full 96 x 96 region.
pub const MAX_SAMPLES: usize = 9216;

/// Largest sample value the statistics accept on the image side.
pub const MAX_SAMPLE_A: i64 = 1_600_000;

/// Largest sample value the statistics accept on the opacity side.
pub const MAX_SAMPLE_B: i64 = 60_000;

/// Denominator of grayscale samples: luminance of pure white.
pub const GRAY_SCALE: i64 = 255_000;

/// Weight of the spatial NCC stage, in hundredths.
pub const SPATIAL_WEIGHT_PCT: i64 = 50;

/// Weight of the gradient NCC stage, in hundredths.
pub const GRADIENT_WEIGHT_PCT: i64 = 30;

/// Weight of the variance stage, in hundredths.
pub const VARIANCE_WEIGHT_PCT: i64 = 20;

/// Circuit breaker cap on the spatial score (0.25).
pub const SPATIAL_CIRCUIT_BREAKER: i64 = 250_000;

/// Fixed internal confidence threshold for declaring "detected" (0.35).
pub const DETECTION_THRESHOLD: i64 = 350_000;

/// Minimum reference patch height for the variance stage.
pub const MIN_REF_HEIGHT: u32 = 8;

/// Result of watermark detection. Scores are fixed-point over
/// [`crate::SCORE_SCALE`].
#[derive(Debug, Clone, PartialEq, Eq, Structural)]
pub struct DetectionResult {
    /// Whether a watermark was detected above the internal confidence
    /// threshold.
    pub detected: bool,
    /// Overall confidence score in `[0, SCORE_SCALE]`.
    pub confidence: i64,
    /// Stage 1: spatial NCC score.
    pub spatial_score: i64,
    /// Stage 2: gradient NCC score.
    pub gradient_score: i64,
    /// Stage 3: variance dampening score.
    pub variance_score: i64,
}

impl Default for DetectionResult {
    /// The zero result: nothing detected, every score zero.
    fn default() -> (r: Self)
        ensures
            r == (DetectionResult {
                detected: false,
                confidence: 0,
                spatial_score: 0,
                gradient_score: 0,
                variance_score: 0,
            }),
    {
        DetectionResult {
            detected: false,
            confidence: 0,
            spatial_score: 0,
            gradient_score: 0,
            variance_score: 0,
        }
    }
}

/// `n * sum(s*s) - sum(s)^2`, which is `n^2` times the variance of `s`.
/// Non-negative for every real sequence; zero exactly on constant or empty
/// sequences.
pub open spec fn spec_q(s: Seq<i64>) -> int {
    s.len() * sum_mul64(s, s) - sum64(s) * sum64(s)
}

/// `n * sum(a*b) - sum(a) * sum(b)`, the cross term of the NCC numerator.
pub open spec fn spec_cross(a: Seq<i64>, b: Seq<i64>) -> int {
    a.len() * sum_mul64(a, b) - sum64(a) * sum64(b)
}

/// Normalized cross-correlation of `a` and `b`, fixed-point over
/// [`SCORE_SCALE`]. Zero when either sequence is empty or has no variance
/// (the degenerate cases); otherwise the cross term divided by the geometric
/// mean of the variance terms, clamped to `[-SCORE_SCALE, SCORE_SCALE]`.
pub open spec fn spec_ncc(a: Seq<i64>, b: Seq<i64>) -> int {
    let qa = spec_q(a);
    let qb = spec_q(b);
    if qa <= 0 || qb <= 0 {
        0
    } else {
        let d = spec_isqrt(qa * qb);
        let p = spec_cross(a, b);
        if p >= 0 {
            if p * SCORE_SCALE / d > SCORE_SCALE {
                SCORE_SCALE as int
            } else {
                p * SCORE_SCALE / d
            }
        } else {
            if (-p) * SCORE_SCALE / d > SCORE_SCALE {
                -(SCORE_SCALE as int)
            } else {
                -((-p) * SCORE_SCALE / d)
            }
        }
    }
}

/// Sum of the elements of `v`, with its range, computed in one pass.
fn sum_vec(v: &Vec<i64>, Ghost(m): Ghost<int>) -> (s: i128)
    requires
        0 <= m <= MAX_SAMPLE_A,
        v@.len() <= MAX_SAMPLES,
        forall|i: int| 0 <= i < v@.len() ==> 0 <= #[trigger] v@[i] <= m,
    ensures
        s == sum64(v@),
        0 <= s <= v@.len() * m,
{
    let n = v.len();
    let mut s: i128 = 0;
    let mut i: usize = 0;
    while i < n
        invariant
            i <= n,
            n == v@.len() <= MAX_SAMPLES,
            0 <= m <= MAX_SAMPLE_A,
            forall|j: int| 0 <= j < v@.len() ==> 0 <= #[trigger] v@[j] <= m,
            s == sum64(v@.take(i as int)),
            0 <= s <= i * m,
        decreases n - i,
    {
        proof {
            assert(v@.take(i + 1).drop_last() =~= v@.take(i as int));
            assert(v@.take(i + 1).last() == v@[i as int]);
            assert(i * m + m == (i + 1) * m) by (nonlinear_arith);
            assert((i + 1) * m <= MAX_SAMPLES * m <= MAX_SAMPLES * (MAX_SAMPLE_A as int))
                by (nonlinear_arith)
                requires
                    0 <= m <= MAX_SAMPLE_A,
                    i + 1 <= MAX_SAMPLES,
            ;
        }
        s = s + (v[i] as i128);
        i = i + 1;
    }
    proof {
        assert(v@.take(n as int) =~= v@);
    }
    s
}

/// Sum of the pointwise products of `a` and `b`, with its range.
fn sum_mul_vec(a: &Vec<i64>, b: &Vec<i64>, Ghost(ma): Ghost<int>, Ghost(mb): Ghost<int>) -> (s:
    i128)
    requires
        0 <= ma <= MAX_SAMPLE_A,
        0 <= mb <= MAX_SAMPLE_A,
        a@.len() == b@.len(),
        a@.len() <= MAX_SAMPLES,
        forall|i: int| 0 <= i < a@.len() ==> 0 <= #[trigger] a@[i] <= ma,
        forall|i: int| 0 <= i < b@.len() ==> 0 <= #[trigger] b@[i] <= mb,
    ensures
        s == sum_mul64(a@, b@),
        0 <= s <= a@.len() * (ma * mb),
{
    let n = a.len();
    let mut s: i128 = 0;
    let mut i: usize = 0;
    while i < n
        invariant
            i <= n,
            n == a@.len() == b@.len(),
            n <= MAX_SAMPLES,
            0 <= ma <= MAX_SAMPLE_A,
            0 <= mb <= MAX_SAMPLE_A,
            forall|j: int| 0 <= j < a@.len() ==> 0 <= #[trigger] a@[j] <= ma,
            forall|j: int| 0 <= j < b@.len() ==> 0 <= #[trigger] b@[j] <= mb,
            s == sum_mul64(a@.take(i as int), b@.take(i as int)),
            0 <= s <= i * (ma * mb),
        decreases n - i,
    {
        proof {
            assert(a@.take(i + 1).drop_last() =~= a@.take(i as int));
            assert(b@.take(i + 1).drop_last() =~= b@.take(i as int));
            assert(0 <= (a@[i as int] as int) * (b@[i as int] as int) <= ma * mb)
                by (nonlinear_arith)
                requires
                    0 <= a@[i as int] <= ma,
                    0 <= b@[i as int] <= mb,
            ;
            assert(i * (ma * mb) + ma * mb == (i + 1) * (ma * mb)) by (nonlinear_arith);
            assert((i + 1) * (ma * mb) <= MAX_SAMPLES * ((MAX_SAMPLE_A as int) * (
            MAX_SAMPLE_A as int))) by (nonlinear_arith)
                requires
                    0 <= ma <= MAX_SAMPLE_A,
                    0 <= mb <= MAX_SAMPLE_A,
                    0 <= ma * mb,
                    i + 1 <= MAX_SAMPLES,
            ;
        }
        let prod: i128 = (a[i] as i128) * (b[i] as i128);
        s = s + prod;
        i = i + 1;
    }
    proof {
        assert(a@.take(n as int) =~= a@);
        assert(b@.take(n as int) =~= b@);
    }
    s
}

/// Normalized cross-correlation of two equal-length sample vectors,
/// fixed-point over [`SCORE_SCALE`]: exactly [`spec_ncc`] of the two
/// sequences.
pub fn ncc(a: &Vec<i64>, b: &Vec<i64>) -> (r: i64)
    requires
        a@.len() == b@.len(),
        a@.len() <= MAX_SAMPLES,
        forall|i: int| 0 <= i < a@.len() ==> 0 <= #[trigger] a@[i] <= MAX_SAMPLE_A,
        forall|i: int| 0 <= i < b@.len() ==> 0 <= #[trigger] b@[i] <= MAX_SAMPLE_B,
    ensures
        r == spec_ncc(a@, b@),
        -SCORE_SCALE <= r <= SCORE_SCALE,
{
    let n = a.len();
    let sa = sum_vec(a, Ghost(MAX_SAMPLE_A as int));
    let sb = sum_vec(b, Ghost(MAX_SAMPLE_B as int));
    let saa = sum_mul_vec(a, a, Ghost(MAX_SAMPLE_A as int), Ghost(MAX_SAMPLE_A as int));
    let sbb = sum_mul_vec(b, b, Ghost(MAX_SAMPLE_B as int), Ghost(MAX_SAMPLE_B as int));
    let sab = sum_mul_vec(a, b, Ghost(MAX_SAMPLE_A as int), Ghost(MAX_SAMPLE_B as int));

    proof {
        assert(n * (MAX_SAMPLE_A as int) <= 9216 * 1_600_000) by (nonlinear_arith)
            requires
                0 <= n <= 9216,
        ;
        assert(n * (MAX_SAMPLE_B as int) <= 9216 * 60_000) by (nonlinear_arith)
            requires
                0 <= n <= 9216,
        ;
        assert(n * ((MAX_SAMPLE_A as int) * (MAX_SAMPLE_A as int)) <= 9216 * (1_600_000
            * 1_600_000)) by (nonlinear_arith)
            requires
                0 <= n <= 9216,
        ;
        assert(n * ((MAX_SAMPLE_B as int) * (MAX_SAMPLE_B as int)) <= 9216 * (60_000 * 60_000))
            by (nonlinear_arith)
            requires
                0 <= n <= 9216,
        ;
        assert(n * ((MAX_SAMPLE_A as int) * (MAX_SAMPLE_B as int)) <= 9216 * (1_600_000 * 60_000))
            by (nonlinear_arith)
            requires
                0 <= n <= 9216,
        ;
        assert(0 <= sa * sa) by (nonlinear_arith);
        assert(0 <= sb * sb) by (nonlinear_arith);
        assert((n as i128) * saa <= 9216 * (9216 * (1_600_000 * 1_600_000int)))
            by (nonlinear_arith)
            requires
                0 <= n <= 9216,
                0 <= saa <= 9216 * (1_600_000 * 1_600_000int),
        ;
        assert((n as i128) * sbb <= 9216 * (9216 * (60_000 * 60_000int))) by (nonlinear_arith)
            requires
                0 <= n <= 9216,
                0 <= sbb <= 9216 * (60_000 * 60_000int),
        ;
        assert(sa * sa <= (9216 * 1_600_000int) * (9216 * 1_600_000int))
            by (nonlinear_arith)
            requires
                0 <= sa <= 9216 * 1_600_000int,
        ;
        assert(sb * sb <= (9216 * 60_000int) * (9216 * 60_000int)) by (nonlinear_arith)
            requires
                0 <= sb <= 9216 * 60_000int,
        ;
        assert((n as i128) * sab <= 9216 * (9216 * (1_600_000 * 60_000int)))
            by (nonlinear_arith)
            requires
                0 <= n <= 9216,
                0 <= sab <= 9216 * (1_600_000 * 60_000int),
        ;
        assert(sa * sb <= (9216 * 1_600_000int) * (9216 * 60_000int)) by (nonlinear_arith)
            requires
                0 <= sa <= 9216 * 1_600_000int,
                0 <= sb <= 9216 * 60_000int,
        ;
        assert(0 <= sa * sb) by (nonlinear_arith)
            requires
                0 <= sa,
                0 <= sb,
        ;
        assert(0 <= (n as i128) * sab) by (nonlinear_arith)
            requires
                0 <= n,
                0 <= sab,
        ;
    }
    // qa = n*saa - sa^2, qb = n*sbb - sb^2: n^2 times the variances.
    let qa: i128 = (n as i128) * saa - sa * sa;
    let qb: i128 = (n as i128) * sbb - sb * sb;
    if qa <= 0 || qb <= 0 {
        return 0;
    }
    proof {
        assert(qa * qb <= (9216 * (9216 * (1_600_000 * 1_600_000int))) * (9216 * (9216 * (
        60_000 * 60_000int)))) by (nonlinear_arith)
            requires
                0 < qa <= 9216 * (9216 * (1_600_000 * 1_600_000int)),
                0 < qb <= 9216 * (9216 * (60_000 * 60_000int)),
        ;
        assert(0 < qa * qb) by (nonlinear_arith)
            requires
                0 < qa,
                0 < qb,
        ;
    }
    let prod: i128 = qa * qb;
    let d: u64 = isqrt_u128(prod as u128);
    let p: i128 = (n as i128) * sab - sa * sb;
    let p_abs: u128 = if p >= 0 {
        p as u128
    } else {
        (-p) as u128
    };
    assert(d >= 1);
    proof {
        assert(p_abs * (SCORE_SCALE as u128) <= u128::MAX) by (nonlinear_arith)
            requires
                SCORE_SCALE == 1_000_000int,
                0 <= p_abs <= 9_000_000_000_000_000_000int,
        ;
    }
    let q: u128 = (p_abs * (SCORE_SCALE as u128)) / (d as u128);
    let mag: i64 = if q > (SCORE_SCALE as u128) {
        SCORE_SCALE
    } else {
        q as i64
    };
    if p >= 0 {
        mag
    } else {
        -mag
    }
}

/// Standard deviation of `data` read as fixed-point samples over
/// [`GRAY_SCALE`], returned fixed-point over [`SCORE_SCALE`]: zero for empty
/// or constant data, otherwise `isqrt(q * SCORE_SCALE^2) / (n * GRAY_SCALE)`
/// with `q` as in [`spec_q`].
pub open spec fn spec_stddev(s: Seq<i64>) -> int {
    if s.len() == 0 {
        0
    } else {
        let q = spec_q(s);
        if q <= 0 {
            0
        } else {
            spec_isqrt(q * SCORE_SCALE * SCORE_SCALE) / (s.len() * GRAY_SCALE)
        }
    }
}

/// Standard deviation of a sample vector: exactly [`spec_stddev`].
pub fn stddev(data: &Vec<i64>) -> (r: i64)
    requires
        data@.len() <= MAX_SAMPLES,
        forall|i: int| 0 <= i < data@.len() ==> 0 <= #[trigger] data@[i] <= MAX_SAMPLE_A,
    ensures
        r == spec_stddev(data@),
        0 <= r <= 60_000_000_000,
{
    let n = data.len();
    if n == 0 {
        return 0;
    }
    let sa = sum_vec(data, Ghost(MAX_SAMPLE_A as int));
    let saa = sum_mul_vec(data, data, Ghost(MAX_SAMPLE_A as int), Ghost(MAX_SAMPLE_A as int));
    proof {
        assert(n * (MAX_SAMPLE_A as int) <= 9216 * 1_600_000) by (nonlinear_arith)
            requires
                0 <= n <= 9216,
        ;
        assert(n * ((MAX_SAMPLE_A as int) * (MAX_SAMPLE_A as int)) <= 9216 * (1_600_000
            * 1_600_000int)) by (nonlinear_arith)
            requires
                0 <= n <= 9216,
        ;
        assert(0 <= sa * sa <= (9216 * 1_600_000int) * (9216 * 1_600_000int))
            by (nonlinear_arith)
            requires
                0 <= sa <= 9216 * 1_600_000int,
        ;
        assert((n as i128) * saa <= 9216 * (9216 * (1_600_000 * 1_600_000int)))
            by (nonlinear_arith)
            requires
                0 <= n <= 9216,
                0 <= saa <= 9216 * (1_600_000 * 1_600_000int),
        ;
        assert(0 <= (n as i128) * saa) by (nonlinear_arith)
            requires
                0 <= n,
                0 <= saa,
        ;
    }
    let q: i128 = (n as i128) * saa - sa * sa;
    if q <= 0 {
        return 0;
    }
    proof {
        assert((q as int) * ((SCORE_SCALE as int) * (SCORE_SCALE as int)) <= (9216 * (9216 * (
        1_600_000 * 1_600_000int))) * (1_000_000 * 1_000_000int)) by (nonlinear_arith)
            requires
                0 < q <= 9216 * (9216 * (1_600_000 * 1_600_000int)),
        ;
        assert(0 < (q as int) * ((SCORE_SCALE as int) * (SCORE_SCALE as int)))
            by (nonlinear_arith)
            requires
                0 < q,
        ;
    }
    let x: u128 = (q as u128) * ((SCORE_SCALE as u128) * (SCORE_SCALE as u128));
    let sd: u64 = isqrt_u128(x);
    proof {
        let big: int = 15_000_000_000_000_000;  // 1.5e16, above sqrt of any admissible x
        assert((x as int) < big * big) by (nonlinear_arith)
            requires
                big == 15_000_000_000_000_000int,
                0 <= x as int <= (9216 * (9216 * (1_600_000 * 1_600_000int))) * (1_000_000
                    * 1_000_000int),
        ;
        assert(sd < big) by {
            if sd as int >= big {
                assert(big * big <= (sd as int) * (sd as int)) by (nonlinear_arith)
                    requires
                        0 <= big <= sd as int,
                ;
            }
        }
    }
    let den: u64 = (n as u64) * (GRAY_SCALE as u64);
    proof {
        assert(n * (GRAY_SCALE as int) <= 9216 * 255_000) by (nonlinear_arith)
            requires
                0 < n <= 9216,
        ;
        assert(n * (GRAY_SCALE as int) >= 255_000) by (nonlinear_arith)
            requires
                1 <= n,
        ;
    }
    let r: u64 = sd / den;
    proof {
        lemma_div_is_ordered(sd as int, 15_000_000_000_000_000int, den as int);
        assert(15_000_000_000_000_000int / (den as int) <= 15_000_000_000_000_000int / 255_000)
            by {
            vstd::arithmetic::div_mod::lemma_div_is_ordered_by_denominator(
                15_000_000_000_000_000int,
                255_000int,
                den as int,
            );
        }
    }
    r as i64
}

/// Horizontal Sobel response at interior pixel `(x, y)` of the `w`-wide grid
/// `d`.
pub open spec fn spec_gx(d: Seq<i64>, w: int, x: int, y: int) -> int {
    -d[(y - 1) * w + (x - 1)] + d[(y - 1) * w + (x + 1)] - 2 * d[y * w + (x - 1)] + 2 * d[y * w + (
    x + 1)] - d[(y + 1) * w + (x - 1)] + d[(y + 1) * w + (x + 1)]
}

/// Vertical Sobel response at interior pixel `(x, y)` of the `w`-wide grid
/// `d`.
pub open spec fn spec_gy(d: Seq<i64>, w: int, x: int, y: int) -> int {
    -d[(y - 1) * w + (x - 1)] - 2 * d[(y - 1) * w + x] - d[(y - 1) * w + (x + 1)] + d[(y + 1) * w
        + (x - 1)] + 2 * d[(y + 1) * w + x] + d[(y + 1) * w + (x + 1)]
}

/// Sobel gradient magnitude at flat index `i` of the `w x h` grid `d`:
/// `isqrt(gx^2 + gy^2)` at interior pixels, zero on the border.
pub open spec fn spec_sobel_at(d: Seq<i64>, w: int, h: int, i: int) -> int {
    let y = i / w;
    let x = i % w;
    if 1 <= x < w - 1 && 1 <= y < h - 1 {
        let gx = spec_gx(d, w, x, y);
        let gy = spec_gy(d, w, x, y);
        spec_isqrt(gx * gx + gy * gy)
    } else {
        0
    }
}

/// The Sobel magnitude grid of `d`, element for element.
pub open spec fn spec_sobel(d: Seq<i64>, w: int, h: int) -> Seq<i64> {
    Seq::new(d.len(), |i: int| spec_sobel_at(d, w, h, i) as i64)
}


/// Clamp `v` into `[lo, hi]`.
pub open spec fn spec_clamp(v: int, lo: int, hi: int) -> int {
    if v < lo {
        lo
    } else if v > hi {
        hi
    } else {
        v
    }
}

/// Luminance of pixel `(x, y)` of the flat RGB buffer `data`, as a numerator
/// over [`GRAY_SCALE`]: `299 * R + 587 * G + 114 * B`.
pub open spec fn spec_lum(data: Seq<u8>, imgw: int, x: int, y: int) -> int {
    299 * spec_channel(data, imgw, x, y, 0) + 587 * spec_channel(data, imgw, x, y, 1) + 114
        * spec_channel(data, imgw, x, y, 2)
}

/// The `w x h` grayscale grid of the image region with top-left corner
/// `(x0, y0)`, row-major.
pub open spec fn spec_gray_region(
    data: Seq<u8>,
    imgw: int,
    x0: int,
    y0: int,
    w: int,
    h: int,
) -> Seq<i64> {
    Seq::new((w * h) as nat, |j: int| (spec_lum(data, imgw, x0 + j % w, y0 + j / w)) as i64)
}

/// Convert an image region to grayscale luminance samples over
/// [`GRAY_SCALE`], row-major.
pub fn region_to_grayscale(img: &Image, x: u32, y: u32, w: u32, h: u32) -> (g: Vec<i64>)
    requires
        img.wf(),
        x + w <= img.width,
        y + h <= img.height,
    ensures
        g@ == spec_gray_region(
            img.data@,
            img.width as int,
            x as int,
            y as int,
            w as int,
            h as int,
        ),
        g@.len() == (w as int) * (h as int),
        forall|i: int| 0 <= i < g@.len() ==> 0 <= #[trigger] g@[i] <= GRAY_SCALE,
{
    let ghost gspec = spec_gray_region(
        img.data@,
        img.width as int,
        x as int,
        y as int,
        w as int,
        h as int,
    );
    let mut g: Vec<i64> = Vec::new();
    let mut dy: u32 = 0;
    while dy < h
        invariant
            dy <= h,
            img.wf(),
            x + w <= img.width,
            y + h <= img.height,
            gspec == spec_gray_region(
                img.data@,
                img.width as int,
                x as int,
                y as int,
                w as int,
                h as int,
            ),
            g@.len() == dy * w,
            forall|j: int| 0 <= j < g@.len() ==> g@[j] == gspec[j],
            forall|j: int| 0 <= j < g@.len() ==> 0 <= #[trigger] g@[j] <= GRAY_SCALE,
        decreases h - dy,
    {
        let mut dx: u32 = 0;
        while dx < w
            invariant
                dx <= w,
                dy < h,
                img.wf(),
                x + w <= img.width,
                y + h <= img.height,
                gspec == spec_gray_region(
                    img.data@,
                    img.width as int,
                    x as int,
                    y as int,
                    w as int,
                    h as int,
                ),
                g@.len() == dy * w + dx,
                forall|j: int| 0 <= j < g@.len() ==> g@[j] == gspec[j],
                forall|j: int| 0 <= j < g@.len() ==> 0 <= #[trigger] g@[j] <= GRAY_SCALE,
            decreases w - dx,
        {
            let r = img.channel(x + dx, y + dy, 0);
            let gg = img.channel(x + dx, y + dy, 1);
            let b = img.channel(x + dx, y + dy, 2);
            let lum: i64 = 299 * (r as i64) + 587 * (gg as i64) + 114 * (b as i64);
            proof {
                let j = dy * w + dx;
                lemma_fundamental_div_mod_converse(j as int, w as int, dy as int, dx as int);
                assert(0 <= j < (w as int) * (h as int)) by (nonlinear_arith)
                    requires
                        0 <= dx < w,
                        0 <= dy < h,
                        j == dy * w + dx,
                ;
                assert(gspec[j as int] == lum);
            }
            g.push(lum);
            dx = dx + 1;
        }
        proof {
            assert(dy * w + w == (dy + 1) * w) by (nonlinear_arith);
        }
        dy = dy + 1;
    }
    proof {
        assert(h * w == w * h) by (nonlinear_arith);
        assert(g@ =~= gspec);
    }
    g
}

/// Sobel gradient magnitudes of a `width x height` sample grid: exactly
/// [`spec_sobel`] of the input, element for element.
pub fn sobel_magnitude(data: &Vec<i64>, width: usize, height: usize) -> (out: Vec<i64>)
    requires
        data@.len() == (width as int) * (height as int),
        width <= 9216,
        height <= 9216,
        forall|i: int| 0 <= i < data@.len() ==> 0 <= #[trigger] data@[i] <= MAX_SAMPLE_A,
    ensures
        out@ == spec_sobel(data@, width as int, height as int),
        out@.len() == data@.len(),
{
    let ghost sspec = spec_sobel(data@, width as int, height as int);
    let total: usize = data.len();
    let mut out: Vec<i64> = Vec::new();
    let mut y: usize = 0;
    while y < height
        invariant
            y <= height,
            data@.len() == (width as int) * (height as int),
            data@.len() <= usize::MAX,
            width <= 9216,
            height <= 9216,
            forall|i: int| 0 <= i < data@.len() ==> 0 <= #[trigger] data@[i] <= MAX_SAMPLE_A,
            sspec == spec_sobel(data@, width as int, height as int),
            out@.len() == y * width,
            forall|j: int| 0 <= j < out@.len() ==> out@[j] == sspec[j],
        decreases height - y,
    {
        let mut x: usize = 0;
        while x < width
            invariant
                x <= width,
                y < height,
                data@.len() == (width as int) * (height as int),
                data@.len() <= usize::MAX,
                width <= 9216,
                height <= 9216,
                forall|i: int| 0 <= i < data@.len() ==> 0 <= #[trigger] data@[i] <= MAX_SAMPLE_A,
                sspec == spec_sobel(data@, width as int, height as int),
                out@.len() == y * width + x,
                forall|j: int| 0 <= j < out@.len() ==> out@[j] == sspec[j],
            decreases width - x,
        {
            proof {
                let j = y * width + x;
                lemma_fundamental_div_mod_converse(j as int, width as int, y as int, x as int);
                assert(0 <= j < (width as int) * (height as int)) by (nonlinear_arith)
                    requires
                        0 <= x < width,
                        0 <= y < height,
                        j == y * width + x,
                ;
            }
            let mag: i64 = if 1 <= x && x + 1 < width && 1 <= y && y + 1 < height {
                proof {
                    assert((y - 1) * width == y * width - width && (y + 1) * width == y * width
                        + width) by (nonlinear_arith);
                    assert(y * width + width + x + 1 < width * height) by (nonlinear_arith)
                        requires
                            1 <= x && x + 1 < width && 1 <= y && y + 1 < height,
                    ;
                }
                let rm = (y - 1) * width;
                let r0 = y * width;
                let rp = (y + 1) * width;
                let gx: i64 = -data[rm + x - 1] + data[rm + x + 1] - 2 * data[r0 + x - 1] + 2
                    * data[r0 + x + 1] - data[rp + x - 1] + data[rp + x + 1];
                let gy: i64 = -data[rm + x - 1] - 2 * data[rm + x] - data[rm + x + 1] + data[rp + x
                    - 1] + 2 * data[rp + x] + data[rp + x + 1];
                proof {
                    assert(0 <= gx * gx <= 6_400_000 * 6_400_000int) by (nonlinear_arith)
                        requires
                            -6_400_000 <= gx <= 6_400_000,
                    ;
                    assert(0 <= gy * gy <= 6_400_000 * 6_400_000int) by (nonlinear_arith)
                        requires
                            -6_400_000 <= gy <= 6_400_000,
                    ;
                }
                let ssq: i64 = gx * gx + gy * gy;
                let m = isqrt_u128(ssq as u128);
                proof {
                    if m as int >= 10_000_000 {
                        assert(10_000_000 * 10_000_000int <= (m as int) * (m as int))
                            by (nonlinear_arith)
                            requires
                                10_000_000 <= m as int,
                        ;
                    }
                }
                m as i64
            } else {
                0
            };
            proof {
                assert(out@.len() == y * width + x);
                assert(mag == sspec[(y * width + x) as int]);
            }
            out.push(mag);
            x = x + 1;
        }
        proof {
            assert(y * width + width == (y + 1) * width) by (nonlinear_arith);
        }
        y = y + 1;
    }
    proof {
        assert(height * width == width * height) by (nonlinear_arith);
        assert(out@ =~= sspec);
    }
    out
}


/// The `w x h` top-left subregion of a `wmw`-wide opacity map, row-major.
pub open spec fn spec_alpha_sub(alpha: Seq<i64>, wmw: int, w: int, h: int) -> Seq<i64> {
    Seq::new((w * h) as nat, |j: int| alpha[(j / w) * wmw + j % w])
}

/// Copy the `w x h` top-left subregion out of a `wm_width`-wide opacity map.
fn extract_alpha_sub(alpha: &Vec<i64>, wm_width: u32, w: u32, h: u32) -> (s: Vec<i64>)
    requires
        w <= wm_width,
        (h as int) * (wm_width as int) <= alpha@.len(),
        forall|i: int| 0 <= i < alpha@.len() ==> 0 <= #[trigger] alpha@[i] <= crate::ALPHA_SCALE,
    ensures
        s@ == spec_alpha_sub(alpha@, wm_width as int, w as int, h as int),
        s@.len() == (w as int) * (h as int),
        forall|i: int| 0 <= i < s@.len() ==> 0 <= #[trigger] s@[i] <= crate::ALPHA_SCALE,
{
    let ghost sspec = spec_alpha_sub(alpha@, wm_width as int, w as int, h as int);
    let total: usize = alpha.len();
    let mut s: Vec<i64> = Vec::new();
    let mut dy: u32 = 0;
    while dy < h
        invariant
            dy <= h,
            w <= wm_width,
            (h as int) * (wm_width as int) <= alpha@.len(),
            alpha@.len() <= usize::MAX,
            forall|i: int|
                0 <= i < alpha@.len() ==> 0 <= #[trigger] alpha@[i] <= crate::ALPHA_SCALE,
            sspec == spec_alpha_sub(alpha@, wm_width as int, w as int, h as int),
            s@.len() == dy * w,
            forall|j: int| 0 <= j < s@.len() ==> s@[j] == sspec[j],
            forall|j: int| 0 <= j < s@.len() ==> 0 <= #[trigger] s@[j] <= crate::ALPHA_SCALE,
        decreases h - dy,
    {
        let mut dx: u32 = 0;
        while dx < w
            invariant
                dx <= w,
                dy < h,
                w <= wm_width,
                (h as int) * (wm_width as int) <= alpha@.len(),
                alpha@.len() <= usize::MAX,
                forall|i: int|
                    0 <= i < alpha@.len() ==> 0 <= #[trigger] alpha@[i] <= crate::ALPHA_SCALE,
                sspec == spec_alpha_sub(alpha@, wm_width as int, w as int, h as int),
                s@.len() == dy * w + dx,
                forall|j: int| 0 <= j < s@.len() ==> s@[j] == sspec[j],
                forall|j: int| 0 <= j < s@.len() ==> 0 <= #[trigger] s@[j] <= crate::ALPHA_SCALE,
            decreases w - dx,
        {
            proof {
                let j = dy * w + dx;
                lemma_fundamental_div_mod_converse(j as int, w as int, dy as int, dx as int);
                assert(dy * wm_width + dx < (h as int) * (wm_width as int)) by (nonlinear_arith)
                    requires
                        0 <= dx < w <= wm_width,
                        0 <= dy < h,
                ;
                assert(dy * w + dx < (w as int) * (h as int)) by (nonlinear_arith)
                    requires
                        0 <= dx < w,
                        0 <= dy < h,
                ;
                assert(0 <= dy * wm_width) by (nonlinear_arith)
                    requires
                        0 <= dy,
                        0 <= wm_width,
                ;
            }
            let idx: usize = (dy as usize) * (wm_width as usize) + (dx as usize);
            let v = alpha[idx];
            proof {
                assert(sspec[(dy * w + dx) as int] == alpha@[idx as int]);
            }
            s.push(v);
            dx = dx + 1;
        }
        proof {
            assert(dy * w + w == (dy + 1) * w) by (nonlinear_arith);
        }
        dy = dy + 1;
    }
    proof {
        assert(h * w == w * h) by (nonlinear_arith);
        assert(s@ =~= sspec);
    }
    s
}

/// Sobel magnitudes of a grid of values in `[0, m]` lie in `[0, 6 * m]`.
pub proof fn lemma_sobel_at_bound(d: Seq<i64>, w: int, h: int, i: int, m: int)
    requires
        0 <= m,
        d.len() == w * h,
        0 <= i < d.len(),
        forall|j: int| 0 <= j < d.len() ==> 0 <= #[trigger] d[j] <= m,
    ensures
        0 <= spec_sobel_at(d, w, h, i) <= 6 * m,
{
    let y = i / w;
    let x = i % w;
    if 1 <= x < w - 1 && 1 <= y < h - 1 {
        vstd::arithmetic::div_mod::lemma_fundamental_div_mod(i, w);
        assert(0 <= (y - 1) * w && (y + 1) * w + x + 1 < w * h && (y - 1) * w == y * w - w && (y
            + 1) * w == y * w + w) by (nonlinear_arith)
            requires
                i == w * (i / w) + i % w,
                y == i / w,
                x == i % w,
                1 <= x < w - 1,
                1 <= y < h - 1,
                0 <= i < d.len(),
                d.len() == w * h,
        ;
        let gx = spec_gx(d, w, x, y);
        let gy = spec_gy(d, w, x, y);
        assert(-(4 * m) <= gx <= 4 * m);
        assert(-(4 * m) <= gy <= 4 * m);
        assert(0 <= gx * gx + gy * gy <= 32 * (m * m)) by (nonlinear_arith)
            requires
                -(4 * m) <= gx <= 4 * m,
                -(4 * m) <= gy <= 4 * m,
        ;
        assert(32 * (m * m) < (6 * m + 1) * (6 * m + 1)) by (nonlinear_arith)
            requires
                0 <= m,
        ;
        crate::numeric::lemma_isqrt_exists(gx * gx + gy * gy);
        crate::numeric::lemma_isqrt_le(gx * gx + gy * gy, 6 * m);
    }
}

/// The complete three-stage detection pipeline over the clipped region of
/// interest: spatial NCC with circuit breaker, gradient NCC, variance
/// dampening, weighted into a confidence in `[0, SCORE_SCALE]`.
pub open spec fn spec_detect(
    img: Seq<u8>,
    imgw: int,
    imgh: int,
    alpha: Seq<i64>,
    wmw: int,
    wmh: int,
    px: int,
    py: int,
    thr: int,
) -> DetectionResult {
    let x2 = if px + wmw < imgw {
        px + wmw
    } else {
        imgw
    };
    let y2 = if py + wmh < imgh {
        py + wmh
    } else {
        imgh
    };
    if px >= x2 || py >= y2 {
        DetectionResult {
            detected: false,
            confidence: 0,
            spatial_score: 0,
            gradient_score: 0,
            variance_score: 0,
        }
    } else {
        let rw = x2 - px;
        let rh = y2 - py;
        let gray = spec_gray_region(img, imgw, px, py, rw, rh);
        let asub = spec_alpha_sub(alpha, wmw, rw, rh);
        let spatial = if spec_ncc(gray, asub) < 0 {
            0
        } else {
            spec_ncc(gray, asub)
        };
        let breaker = if thr < SPATIAL_CIRCUIT_BREAKER {
            thr
        } else {
            SPATIAL_CIRCUIT_BREAKER as int
        };
        if spatial < breaker {
            DetectionResult {
                detected: false,
                confidence: (spatial / 2) as i64,
                spatial_score: spatial as i64,
                gradient_score: 0,
                variance_score: 0,
            }
        } else {
            let grad = if spec_ncc(spec_sobel(gray, rw, rh), spec_sobel(asub, rw, rh)) < 0 {
                0
            } else {
                spec_ncc(spec_sobel(gray, rw, rh), spec_sobel(asub, rw, rh))
            };
            let refh_a = if py < wmh {
                py
            } else {
                wmh
            };
            let refh = if refh_a < imgh - py {
                refh_a
            } else {
                imgh - py
            };
            let variance = if refh > MIN_REF_HEIGHT {
                let sd_wm = spec_stddev(gray);
                let sd_ref = spec_stddev(spec_gray_region(img, imgw, px, py - refh, rw, refh));
                if sd_ref * 255 > 5 * SCORE_SCALE {
                    spec_clamp(SCORE_SCALE - sd_wm * SCORE_SCALE / sd_ref, 0, SCORE_SCALE as int)
                } else {
                    0
                }
            } else {
                0
            };
            let conf = spec_clamp(
                (SPATIAL_WEIGHT_PCT * spatial + GRADIENT_WEIGHT_PCT * grad + VARIANCE_WEIGHT_PCT
                    * variance) / 100,
                0,
                SCORE_SCALE as int,
            );
            DetectionResult {
                detected: conf >= DETECTION_THRESHOLD,
                confidence: conf as i64,
                spatial_score: spatial as i64,
                gradient_score: grad as i64,
                variance_score: variance as i64,
            }
        }
    }
}

/// Decide whether the watermark pattern occupies the region with top-left
/// corner `(pos_x, pos_y)`: exactly [`spec_detect`] over the image bytes.
///
/// Never fails: a region that lies partly outside the image is clipped, and
/// an empty intersection yields the zero result.
#[verifier::rlimit(100)]
pub fn detect_watermark(
    image: &Image,
    alpha_map: &Vec<i64>,
    wm_width: u32,
    wm_height: u32,
    pos_x: u32,
    pos_y: u32,
    user_threshold: i64,
) -> (r: DetectionResult)
    requires
        image.wf(),
        alpha_map@.len() == (wm_width as int) * (wm_height as int),
        wm_width <= 96,
        wm_height <= 96,
        pos_x + wm_width <= u32::MAX,
        pos_y + wm_height <= u32::MAX,
        0 <= user_threshold <= SCORE_SCALE,
        forall|i: int|
            0 <= i < alpha_map@.len() ==> 0 <= #[trigger] alpha_map@[i] <= crate::ALPHA_SCALE,
    ensures
        r == spec_detect(
            image.data@,
            image.width as int,
            image.height as int,
            alpha_map@,
            wm_width as int,
            wm_height as int,
            pos_x as int,
            pos_y as int,
            user_threshold as int,
        ),
{
    let img_w = image.width;
    let img_h = image.height;
    let x2 = if pos_x + wm_width < img_w {
        pos_x + wm_width
    } else {
        img_w
    };
    let y2 = if pos_y + wm_height < img_h {
        pos_y + wm_height
    } else {
        img_h
    };
    if pos_x >= x2 || pos_y >= y2 {
        return DetectionResult {
            detected: false,
            confidence: 0,
            spatial_score: 0,
            gradient_score: 0,
            variance_score: 0,
        };
    }
    let roi_w = x2 - pos_x;
    let roi_h = y2 - pos_y;
    proof {
        assert((roi_w as int) * (roi_h as int) <= 9216) by (nonlinear_arith)
            requires
                0 < roi_w <= 96,
                0 < roi_h <= 96,
        ;
        assert((roi_h as int) * (wm_width as int) <= (wm_width as int) * (wm_height as int))
            by (nonlinear_arith)
            requires
                0 < roi_h <= wm_height,
                0 <= wm_width,
        ;
    }
    let gray = region_to_grayscale(image, pos_x, pos_y, roi_w, roi_h);
    let alpha_sub = extract_alpha_sub(alpha_map, wm_width, roi_w, roi_h);

    // Stage 1: spatial NCC against the opacity pattern, clamped at zero.
    let ncc_sp = ncc(&gray, &alpha_sub);
    let spatial = if ncc_sp < 0 {
        0
    } else {
        ncc_sp
    };

    // Circuit breaker: an obviously absent signature stops the pipeline.
    let breaker = if user_threshold < SPATIAL_CIRCUIT_BREAKER {
        user_threshold
    } else {
        SPATIAL_CIRCUIT_BREAKER
    };
    if spatial < breaker {
        return DetectionResult {
            detected: false,
            confidence: spatial / 2,
            spatial_score: spatial,
            gradient_score: 0,
            variance_score: 0,
        };
    }

    // Stage 2: NCC of Sobel gradient magnitudes (edge signature).
    let img_grad = sobel_magnitude(&gray, roi_w as usize, roi_h as usize);
    let alpha_grad = sobel_magnitude(&alpha_sub, roi_w as usize, roi_h as usize);
    proof {
        assert forall|i: int| 0 <= i < img_grad@.len() implies 0 <= #[trigger] img_grad@[i]
            <= MAX_SAMPLE_A by {
            lemma_sobel_at_bound(gray@, roi_w as int, roi_h as int, i, GRAY_SCALE as int);
        }
        assert forall|i: int| 0 <= i < alpha_grad@.len() implies 0 <= #[trigger] alpha_grad@[i]
            <= MAX_SAMPLE_B by {
            lemma_sobel_at_bound(alpha_sub@, roi_w as int, roi_h as int, i, crate::ALPHA_SCALE as int);
        }
    }
    let ncc_gr = ncc(&img_grad, &alpha_grad);
    let gradient = if ncc_gr < 0 {
        0
    } else {
        ncc_gr
    };

    // Stage 3: variance dampening against the patch right above the region.
    let refh_a = if pos_y < wm_height {
        pos_y
    } else {
        wm_height
    };
    let refh = if refh_a < img_h - pos_y {
        refh_a
    } else {
        img_h - pos_y
    };
    let mut variance: i64 = 0;
    if refh > MIN_REF_HEIGHT {
        let ref_gray = region_to_grayscale(image, pos_x, pos_y - refh, roi_w, refh);
        proof {
            assert((roi_w as int) * (refh as int) <= 9216) by (nonlinear_arith)
                requires
                    0 < roi_w <= 96,
                    0 < refh <= 96,
            ;
        }
        let sd_wm = stddev(&gray);
        let sd_ref = stddev(&ref_gray);
        if sd_ref * 255 > 5 * SCORE_SCALE {
            let v = SCORE_SCALE - (sd_wm * SCORE_SCALE) / sd_ref;
            variance = if v < 0 {
                0
            } else if v > SCORE_SCALE {
                SCORE_SCALE
            } else {
                v
            };
        }
    }

    // Weighted ensemble of the three stages.
    let weighted = (SPATIAL_WEIGHT_PCT * spatial + GRADIENT_WEIGHT_PCT * gradient
        + VARIANCE_WEIGHT_PCT * variance) / 100;
    let confidence = if weighted < 0 {
        0
    } else if weighted > SCORE_SCALE {
        SCORE_SCALE
    } else {
        weighted
    };
    DetectionResult {
        detected: confidence >= DETECTION_THRESHOLD,
        confidence,
        spatial_score: spatial,
        gradient_score: gradient,
        variance_score: variance,
    }
}


/// NCC of a signal with itself is exactly 1.0 (`SCORE_SCALE`), whenever the
/// signal is not degenerate (it has some variance).
pub proof fn lemma_ncc_self(a: Seq<i64>)
    requires
        spec_q(a) > 0,
    ensures
        spec_ncc(a, a) == SCORE_SCALE,
{
    let q = spec_q(a);
    assert(q * q <= q * q && q * q < (q + 1) * (q + 1)) by (nonlinear_arith)
        requires
            q > 0,
    ;
    lemma_isqrt_unique(q * q, q);
    assert(spec_cross(a, a) == q);
    vstd::arithmetic::div_mod::lemma_div_multiples_vanish(SCORE_SCALE as int, q);
    assert(q * (SCORE_SCALE as int) == (SCORE_SCALE as int) * q) by (nonlinear_arith);
}

/// NCC of a signal with its pointwise complement `k - a[i]` is exactly -1.0
/// (`-SCORE_SCALE`), whenever the signal is not degenerate.
pub proof fn lemma_ncc_complement(a: Seq<i64>, b: Seq<i64>, k: int)
    requires
        spec_q(a) > 0,
        a.len() == b.len(),
        forall|i: int| 0 <= i < a.len() ==> b[i] == k - a[i],
    ensures
        spec_ncc(a, b) == -SCORE_SCALE,
{
    crate::numeric::lemma_sums_complement(a, b, k);
    let n = a.len() as int;
    let sa = sum64(a);
    let saa = sum_mul64(a, a);
    let q = spec_q(a);
    assert(spec_q(b) == q) by (nonlinear_arith)
        requires
            spec_q(b) == n * (n * (k * k) - 2 * k * sa + saa) - (n * k - sa) * (n * k - sa),
            q == n * saa - sa * sa,
    ;
    assert(spec_cross(a, b) == -q) by (nonlinear_arith)
        requires
            spec_cross(a, b) == n * (k * sa - saa) - sa * (n * k - sa),
            q == n * saa - sa * sa,
    ;
    assert(q * q <= q * q && q * q < (q + 1) * (q + 1)) by (nonlinear_arith)
        requires
            q > 0,
    ;
    lemma_isqrt_unique(q * q, q);
    vstd::arithmetic::div_mod::lemma_div_multiples_vanish(SCORE_SCALE as int, q);
    assert(q * (SCORE_SCALE as int) == (SCORE_SCALE as int) * q) by (nonlinear_arith);
}

/// NCC of empty or degenerate (variance-free) input is zero, by definition.
pub proof fn lemma_ncc_degenerate(a: Seq<i64>, b: Seq<i64>)
    requires
        a.len() == 0 || spec_q(a) <= 0 || spec_q(b) <= 0,
    ensures
        spec_ncc(a, b) == 0,
{
    if a.len() == 0 {
        assert(sum_mul64(a, a) == 0);
        assert(sum64(a) == 0);
        assert(spec_q(a) == 0) by (nonlinear_arith)
            requires
                spec_q(a) == 0int * 0 - 0 * 0,
        ;
    }
}

/// The standard deviation of an empty or constant sequence is zero.
pub proof fn lemma_stddev_constant(s: Seq<i64>, v: int)
    requires
        forall|i: int| 0 <= i < s.len() ==> s[i] == v,
    ensures
        spec_stddev(s) == 0,
{
    crate::numeric::lemma_sums_constant(s, v);
    let n = s.len() as int;
    assert(n * (n * (v * v)) - (n * v) * (n * v) == 0) by (nonlinear_arith);
}

/// A constant sequence has no variance, so its NCC with anything is zero.
pub proof fn lemma_q_constant(s: Seq<i64>, v: int)
    requires
        forall|i: int| 0 <= i < s.len() ==> s[i] == v,
    ensures
        spec_q(s) == 0,
{
    crate::numeric::lemma_sums_constant(s, v);
    let n = s.len() as int;
    assert(n * (n * (v * v)) - (n * v) * (n * v) == 0) by (nonlinear_arith);
}

/// Row and column of the flat index `y * w + x`.
proof fn lemma_grid_coords(w: int, x: int, y: int)
    requires
        0 <= x < w,
        0 <= y,
    ensures
        (y * w + x) / w == y,
        (y * w + x) % w == x,
{
    vstd::arithmetic::div_mod::lemma_fundamental_div_mod_converse(y * w + x, w, y, x);
}

/// The Sobel magnitude of a uniform field is zero everywhere.
pub proof fn lemma_sobel_uniform(d: Seq<i64>, w: int, h: int, v: int)
    requires
        0 <= w,
        0 <= h,
        d.len() == w * h,
        forall|i: int| 0 <= i < d.len() ==> d[i] == v,
    ensures
        forall|i: int| 0 <= i < d.len() ==> #[trigger] spec_sobel_at(d, w, h, i) == 0,
{
    assert forall|i: int| 0 <= i < d.len() implies #[trigger] spec_sobel_at(d, w, h, i) == 0 by {
        let y = i / w;
        let x = i % w;
        if 1 <= x < w - 1 && 1 <= y < h - 1 {
            assert forall|yy: int, xx: int|
                0 <= xx < w && 0 <= yy < h implies #[trigger] d[yy * w + xx] == v by {
                assert(0 <= yy * w + xx < w * h) by (nonlinear_arith)
                    requires
                        0 <= xx < w,
                        0 <= yy < h,
                ;
            }
            vstd::arithmetic::div_mod::lemma_fundamental_div_mod(i, w);
            assert(0 <= y - 1 && 0 <= x - 1);
            assert(d[(y - 1) * w + (x - 1)] == v && d[(y - 1) * w + x] == v && d[(y - 1) * w + (x
                + 1)] == v && d[y * w + (x - 1)] == v && d[y * w + (x + 1)] == v && d[(y + 1) * w
                + (x - 1)] == v && d[(y + 1) * w + x] == v && d[(y + 1) * w + (x + 1)] == v);
            assert(spec_gx(d, w, x, y) == 0);
            assert(spec_gy(d, w, x, y) == 0);
            assert(is_isqrt(0, 0));
            lemma_isqrt_unique(0, 0);
        }
    }
}

/// A hard vertical step edge (columns left of `k` hold `lo`, the rest `hi`)
/// produces a strictly positive Sobel magnitude at every interior pixel in
/// the column just left of the step: the magnitude there is exactly
/// `4 * (hi - lo)`.
pub proof fn lemma_sobel_step_edge(d: Seq<i64>, w: int, h: int, lo: int, hi: int, k: int, y: int)
    requires
        d.len() == w * h,
        2 <= k <= w - 2,
        1 <= y <= h - 2,
        lo < hi,
        forall|j: int| 0 <= j < d.len() ==> d[j] == (if j % w < k {
            lo
        } else {
            hi
        }),
    ensures
        spec_sobel_at(d, w, h, y * w + (k - 1)) == 4 * (hi - lo),
        spec_sobel_at(d, w, h, y * w + (k - 1)) > 0,
{
    let x = k - 1;
    let i = y * w + x;
    lemma_grid_coords(w, x, y);
    assert forall|yy: int, xx: int|
        0 <= xx < w && 0 <= yy < h implies #[trigger] d[yy * w + xx] == (if xx < k {
        lo
    } else {
        hi
    }) by {
        assert(0 <= yy * w + xx < w * h) by (nonlinear_arith)
            requires
                0 <= xx < w,
                0 <= yy < h,
        ;
        lemma_grid_coords(w, xx, yy);
    }
    assert(d[(y - 1) * w + (x - 1)] == lo && d[(y - 1) * w + x] == lo && d[(y - 1) * w + (x + 1)]
        == hi && d[y * w + (x - 1)] == lo && d[y * w + (x + 1)] == hi && d[(y + 1) * w + (x - 1)]
        == lo && d[(y + 1) * w + x] == lo && d[(y + 1) * w + (x + 1)] == hi);
    let g = 4 * (hi - lo);
    assert(spec_gx(d, w, x, y) == g);
    assert(spec_gy(d, w, x, y) == 0);
    assert(g * g <= g * g + 0 * 0 && g * g + 0 * 0 < (g + 1) * (g + 1)) by (nonlinear_arith)
        requires
            g > 0,
    ;
    lemma_isqrt_unique(g * g + spec_gy(d, w, x, y) * spec_gy(d, w, x, y), g);
}

/// On a constant (all-black or all-blank) image the detector reports nothing:
/// every stage scores zero, the confidence is zero, and `detected` is false.
pub proof fn lemma_detect_constant_image(
    img: Seq<u8>,
    imgw: int,
    imgh: int,
    alpha: Seq<i64>,
    wmw: int,
    wmh: int,
    px: int,
    py: int,
    thr: int,
    v: u8,
)
    requires
        img.len() == 3 * (imgw * imgh),
        0 <= imgw,
        0 <= imgh,
        0 <= px,
        0 <= py,
        forall|i: int| 0 <= i < img.len() ==> img[i] == v,
    ensures
        spec_detect(img, imgw, imgh, alpha, wmw, wmh, px, py, thr).confidence == 0,
        !spec_detect(img, imgw, imgh, alpha, wmw, wmh, px, py, thr).detected,
{
    let x2 = if px + wmw < imgw {
        px + wmw
    } else {
        imgw
    };
    let y2 = if py + wmh < imgh {
        py + wmh
    } else {
        imgh
    };
    if px >= x2 || py >= y2 {
    } else {
        let rw = x2 - px;
        let rh = y2 - py;
        let lum = 1000 * (v as int);
        lemma_gray_region_constant(img, imgw, imgh, px, py, rw, rh, v);
        let gray = spec_gray_region(img, imgw, px, py, rw, rh);
        let asub = spec_alpha_sub(alpha, wmw, rw, rh);
        lemma_q_constant(gray, lum);
        lemma_ncc_degenerate(gray, asub);
        assert(spec_ncc(gray, asub) == 0);
        let breaker = if thr < SPATIAL_CIRCUIT_BREAKER {
            thr
        } else {
            SPATIAL_CIRCUIT_BREAKER as int
        };
        if 0 < breaker {
        } else {
            lemma_sobel_uniform(gray, rw, rh, lum);
            let gsob = spec_sobel(gray, rw, rh);
            assert forall|i: int| 0 <= i < gsob.len() implies gsob[i] == 0i64 by {
                assert(spec_sobel_at(gray, rw, rh, i) == 0);
            }
            lemma_q_constant(gsob, 0);
            lemma_ncc_degenerate(gsob, spec_sobel(asub, rw, rh));
            let refh_a = if py < wmh {
                py
            } else {
                wmh
            };
            let refh = if refh_a < imgh - py {
                refh_a
            } else {
                imgh - py
            };
            if refh > MIN_REF_HEIGHT {
                lemma_gray_region_constant(img, imgw, imgh, px, py - refh, rw, refh, v);
                lemma_stddev_constant(
                    spec_gray_region(img, imgw, px, py - refh, rw, refh),
                    lum,
                );
            }
        }
    }
}

/// Every sample of the grayscale grid of a constant image is the constant's
/// luminance.
proof fn lemma_gray_region_constant(
    img: Seq<u8>,
    imgw: int,
    imgh: int,
    x0: int,
    y0: int,
    w: int,
    h: int,
    v: u8,
)
    requires
        img.len() == 3 * (imgw * imgh),
        0 <= x0,
        0 <= y0,
        0 < w,
        0 < h,
        x0 + w <= imgw,
        y0 + h <= imgh,
        forall|i: int| 0 <= i < img.len() ==> img[i] == v,
    ensures
        forall|j: int|
            0 <= j < spec_gray_region(img, imgw, x0, y0, w, h).len()
                ==> #[trigger] spec_gray_region(img, imgw, x0, y0, w, h)[j] == (1000 * (
            v as int)) as i64,
{
    let g = spec_gray_region(img, imgw, x0, y0, w, h);
    assert forall|j: int| 0 <= j < g.len() implies #[trigger] g[j] == (1000 * (v as int)) as i64 by {
        let x = x0 + j % w;
        let y = y0 + j / w;
        assert(0 <= j % w < w && 0 <= j / w) by {
            vstd::arithmetic::div_mod::lemma_mod_bound(j, w);
            vstd::arithmetic::div_mod::lemma_div_pos_is_pos(j, w);
        }
        vstd::arithmetic::div_mod::lemma_fundamental_div_mod(j, w);
        assert(j / w < h) by (nonlinear_arith)
            requires
                0 <= j < w * h,
                j == w * (j / w) + j % w,
                0 <= j % w < w,
                0 < w,
        ;
        assert forall|c: int| 0 <= c < 3 implies img[crate::raster::pixel_index(
            imgw,
            x,
            y,
            c,
        )] == v by {
            assert(0 <= 3 * (y * imgw + x) + c < 3 * (imgw * imgh)) by (nonlinear_arith)
                requires
                    0 <= x < imgw,
                    0 <= y < imgh,
                    0 <= c < 3,
            ;
        }
        assert(spec_lum(img, imgw, x, y) == 1000 * (v as int));
    }
}


/// Circuit breaker: whenever the spatial score falls under
/// `min(user_threshold, SPATIAL_CIRCUIT_BREAKER)`, the gradient and variance
/// scores are exactly zero, nothing is detected, and the confidence is half
/// the spatial score.
pub proof fn lemma_circuit_breaker(
    img: Seq<u8>,
    imgw: int,
    imgh: int,
    alpha: Seq<i64>,
    wmw: int,
    wmh: int,
    px: int,
    py: int,
    thr: int,
)
    ensures
        ({
            let r = spec_detect(img, imgw, imgh, alpha, wmw, wmh, px, py, thr);
            let breaker = if thr < SPATIAL_CIRCUIT_BREAKER {
                thr
            } else {
                SPATIAL_CIRCUIT_BREAKER as int
            };
            r.spatial_score < breaker ==> r.gradient_score == 0 && r.variance_score == 0
                && !r.detected && r.confidence == r.spatial_score / 2
        }),
{
    let x2 = if px + wmw < imgw {
        px + wmw
    } else {
        imgw
    };
    let y2 = if py + wmh < imgh {
        py + wmh
    } else {
        imgh
    };
    if px >= x2 || py >= y2 {
    } else {
        let rw = x2 - px;
        let rh = y2 - py;
        let gray = spec_gray_region(img, imgw, px, py, rw, rh);
        let asub = spec_alpha_sub(alpha, wmw, rw, rh);
        lemma_ncc_range(gray, asub);
    }
}

/// The NCC score always lies in `[-SCORE_SCALE, SCORE_SCALE]`: the defining
/// quotient is clamped there.
pub proof fn lemma_ncc_range(a: Seq<i64>, b: Seq<i64>)
    ensures
        -SCORE_SCALE <= spec_ncc(a, b) <= SCORE_SCALE,
{
    let qa = spec_q(a);
    let qb = spec_q(b);
    if qa <= 0 || qb <= 0 {
    } else {
        assert(qa * qb >= 1) by (nonlinear_arith)
            requires
                qa >= 1,
                qb >= 1,
        ;
        crate::numeric::lemma_isqrt_exists(qa * qb);
        let d = spec_isqrt(qa * qb);
        assert(d >= 1);
        let p = spec_cross(a, b);
        if p >= 0 {
            assert(p * SCORE_SCALE >= 0) by (nonlinear_arith)
                requires
                    p >= 0,
            ;
            vstd::arithmetic::div_mod::lemma_div_pos_is_pos(p * SCORE_SCALE, d);
        } else {
            assert((-p) * SCORE_SCALE >= 0) by (nonlinear_arith)
                requires
                    p < 0,
            ;
            vstd::arithmetic::div_mod::lemma_div_pos_is_pos((-p) * SCORE_SCALE, d);
        }
    }
}


/// The detector never needs the watermark region to fit inside the image:
/// the region is clipped first, and when the clipped intersection is empty
/// the result is the zero result, nothing detected.
pub proof fn lemma_detect_empty_intersection(
    img: Seq<u8>,
    imgw: int,
    imgh: int,
    alpha: Seq<i64>,
    wmw: int,
    wmh: int,
    px: int,
    py: int,
    thr: int,
)
    requires
        px >= imgw || py >= imgh || wmw <= 0 || wmh <= 0,
    ensures
        spec_detect(img, imgw, imgh, alpha, wmw, wmh, px, py, thr) == (DetectionResult {
            detected: false,
            confidence: 0,
            spatial_score: 0,
            gradient_score: 0,
            variance_score: 0,
        }),
{
}

} // verus!
