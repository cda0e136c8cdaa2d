//! Images made from two compared images: a difference image, with the
//! pixels that differ in red and the others in grey, and a side-by-side
//! image. Images are RGBA pixel buffers, row by row.

use crate::error::RCompareError;
use crate::image_diff::{ImageDiffEngine, pixel_exceeds};
use crate::text::{chars_of, string_from_chars};
use vstd::prelude::*;
use vstd::arithmetic::div_mod::lemma_fundamental_div_mod_converse;

verus! {

/// An RGBA image: its width, height, and pixels row by row.
#[derive(Debug, Clone)]
pub struct RgbaPixels {
    pub width: u32,
    pub height: u32,
    pub pixels: Vec<[u8; 4]>,
}

/// The image holds one pixel per position.
pub open spec fn pixels_wf(img: RgbaPixels) -> bool {
    img.pixels@.len() == img.width * img.height
}

/// Message of a difference image asked for images of different sizes.
pub const DIFF_SIZE_MISMATCH: &'static str = "Cannot create diff image for images with different dimensions";

/// Columns of background between the two images side by side.
pub const SIDE_GAP: u32 = 4;

/// The grey level of a pixel: the mean of its colour channels.
pub open spec fn grey_of(p: [u8; 4]) -> u8 {
    ((p[0] + p[1] + p[2]) / 3) as u8
}

/// Pixel `i` of a difference image: red where the pixels differ by more
/// than `t` in some channel, else the left pixel in grey, opaque.
pub open spec fn diff_pixel(left: Seq<[u8; 4]>, right: Seq<[u8; 4]>, t: u8, i: int) -> [u8; 4] {
    if pixel_exceeds(left, right, t, i) {
        [255u8, 0u8, 0u8, 255u8]
    } else {
        [grey_of(left[i]), grey_of(left[i]), grey_of(left[i]), 255u8]
    }
}

/// The pixel at column `x`, row `y` of the side-by-side image: the left
/// image at the top left, the right one after a gap, grey elsewhere.
pub open spec fn side_pixel(left: RgbaPixels, right: RgbaPixels, x: int, y: int) -> [u8; 4] {
    if x < left.width && y < left.height {
        left.pixels@[y * left.width + x]
    } else if left.width + SIDE_GAP <= x && x < left.width + SIDE_GAP + right.width && y < right.height {
        right.pixels@[y * right.width + (x - left.width - SIDE_GAP)]
    } else {
        [128u8, 128u8, 128u8, 255u8]
    }
}

/// The grey level of a pixel.
fn grey(p: [u8; 4]) -> (res: u8)
    ensures
        res == grey_of(p),
{
    ((p[0] as u16 + p[1] as u16 + p[2] as u16) / 3) as u8
}

impl ImageDiffEngine {
    /// The difference image of two images of the same size under a
    /// per-channel threshold mode: red where the pixels differ, the left
    /// pixel in grey elsewhere. An error for images of different sizes;
    /// `None` in perceptual mode, which compares luminance instead.
    pub fn create_diff_image(&self, left: &RgbaPixels, right: &RgbaPixels) -> (res: Option<Result<RgbaPixels, RCompareError>>)
        requires
            pixels_wf(*left),
            pixels_wf(*right),
        ensures
            match self.channel_threshold_spec() {
                None => res is None,
                Some(t) => if left.width != right.width || left.height != right.height {
                    res matches Some(Err(RCompareError::Comparison(m))) && m@ == DIFF_SIZE_MISMATCH@
                } else {
                    res matches Some(Ok(img)) && img.width == left.width && img.height == left.height
                        && img.pixels@.len() == left.pixels@.len()
                        && forall|i: int| 0 <= i < img.pixels@.len() ==> #[trigger] img.pixels@[i] == diff_pixel(left.pixels@, right.pixels@, t, i)
                },
            },
    {
        let t = match self.channel_threshold() {
            Some(t) => t,
            None => return None,
        };
        if left.width != right.width || left.height != right.height {
            return Some(Err(RCompareError::Comparison(string_from_chars(chars_of(DIFF_SIZE_MISMATCH).as_slice()))));
        }
        let n = left.pixels.len();
        let mut out: Vec<[u8; 4]> = Vec::new();
        for i in 0..n
            invariant
                n == left.pixels@.len(),
                n == right.pixels@.len(),
                out@.len() == i,
                forall|k: int| 0 <= k < i ==> #[trigger] out@[k] == diff_pixel(left.pixels@, right.pixels@, t, k),
        {
            let l = left.pixels[i];
            let r = right.pixels[i];
            let p = if crate::image_diff::channels_exceed(l, r, t) {
                [255u8, 0u8, 0u8, 255u8]
            } else {
                let g = grey(l);
                [g, g, g, 255u8]
            };
            out.push(p);
        }
        Some(Ok(RgbaPixels { width: left.width, height: left.height, pixels: out }))
    }

    /// The two images side by side on a grey background, four columns
    /// apart, as tall as the taller one.
    pub fn create_side_by_side(&self, left: &RgbaPixels, right: &RgbaPixels) -> (res: RgbaPixels)
        requires
            pixels_wf(*left),
            pixels_wf(*right),
            left.width + right.width + SIDE_GAP <= u32::MAX,
            (left.width + right.width + SIDE_GAP) * (if left.height >= right.height { left.height } else { right.height }) <= usize::MAX,
        ensures
            res.width == left.width + right.width + SIDE_GAP,
            res.height == (if left.height >= right.height { left.height } else { right.height }),
            pixels_wf(res),
            forall|x: int, y: int| 0 <= x < res.width && 0 <= y < res.height
                ==> #[trigger] res.pixels@[y * res.width + x] == side_pixel(*left, *right, x, y),
    {
        let w: u32 = left.width + right.width + SIDE_GAP;
        let h: u32 = if left.height >= right.height { left.height } else { right.height };
        let llen = left.pixels.len();
        let rlen = right.pixels.len();
        let mut out: Vec<[u8; 4]> = Vec::new();
        let mut y: u32 = 0;
        while y < h
            invariant
                w == left.width + right.width + SIDE_GAP,
                h == (if left.height >= right.height { left.height } else { right.height }),
                w * h <= usize::MAX,
                pixels_wf(*left),
                pixels_wf(*right),
                llen == left.pixels@.len(),
                rlen == right.pixels@.len(),
                y <= h,
                out@.len() == y * w,
                forall|k: int| 0 <= k < out@.len() ==> #[trigger] out@[k] == side_pixel(*left, *right, k % (w as int), k / (w as int)),
            decreases h - y,
        {
            let mut x: u32 = 0;
            while x < w
                invariant
                    w == left.width + right.width + SIDE_GAP,
                    h == (if left.height >= right.height { left.height } else { right.height }),
                    w * h <= usize::MAX,
                    pixels_wf(*left),
                    pixels_wf(*right),
                    llen == left.pixels@.len(),
                    rlen == right.pixels@.len(),
                    y < h,
                    x <= w,
                    out@.len() == y * w + x,
                    forall|k: int| 0 <= k < out@.len() ==> #[trigger] out@[k] == side_pixel(*left, *right, k % (w as int), k / (w as int)),
                decreases w - x,
            {
                assert((y + 1) * w <= h * w) by (nonlinear_arith)
                    requires y < h;
                assert(y * w + x < (y + 1) * w) by (nonlinear_arith)
                    requires x < w;
                let p = if x < left.width && y < left.height {
                    assert(y * left.width + x < left.width * left.height) by (nonlinear_arith)
                        requires y < left.height, x < left.width;
                    assert(left.pixels@.len() <= usize::MAX);
                    let idx = (y as usize) * (left.width as usize) + (x as usize);
                    left.pixels[idx]
                } else if left.width + SIDE_GAP <= x && x < left.width + SIDE_GAP + right.width && y < right.height {
                    let rx = x - left.width - SIDE_GAP;
                    assert(y * right.width + rx < right.width * right.height) by (nonlinear_arith)
                        requires y < right.height, rx < right.width;
                    assert(right.pixels@.len() <= usize::MAX);
                    let idx = (y as usize) * (right.width as usize) + (rx as usize);
                    right.pixels[idx]
                } else {
                    [128u8, 128u8, 128u8, 255u8]
                };
                proof {
                    let k = y * w + x;
                    lemma_fundamental_div_mod_converse(k as int, w as int, y as int, x as int);
                }
                out.push(p);
                x = x + 1;
            }
            assert(y * w + w == (y + 1) * w) by (nonlinear_arith);
            y = y + 1;
        }
        assert(h * w == w * h) by (nonlinear_arith);
        assert forall|xx: int, yy: int| 0 <= xx < w && 0 <= yy < h implies #[trigger] out@[yy * w + xx] == side_pixel(*left, *right, xx, yy) by {
            assert(yy * w + xx < h * w) by (nonlinear_arith)
                requires 0 <= yy < h, 0 <= xx < w;
            lemma_fundamental_div_mod_converse(yy * w + xx, w as int, yy, xx);
        }
        RgbaPixels { width: w, height: h, pixels: out }
    }
}

/// The difference image of an image with itself marks nothing: every pixel
/// is the image's own pixel in grey.
pub proof fn lemma_diff_image_self(x: Seq<[u8; 4]>, t: u8, i: int)
    requires
        0 <= i < x.len(),
    ensures
        diff_pixel(x, x, t, i) == [grey_of(x[i]), grey_of(x[i]), grey_of(x[i]), 255u8],
{
    assert(!pixel_exceeds(x, x, t, i));
}

} // verus!
