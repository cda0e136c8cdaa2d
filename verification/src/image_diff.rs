//! Image comparison settings, decoding images with the `image` crate and
//! reading their EXIF metadata with `kamadak-exif`, comparison of RGBA
//! pixel buffers under a per-channel threshold, EXIF metadata comparison,
//! and recognising image files. The perceptual comparison, which weighs
//! channels by fractional factors, and the percentages derived from the
//! counts are left to the caller.

use crate::error::RCompareError;
use crate::file_kinds::{extension_in, has_extension_in};
use crate::image_compose::{pixels_wf, RgbaPixels};
use crate::text::{chars_of, concat_str, same_text, string_from_chars};
use exif::{Context, In, Reader, Tag};
use std::io::Cursor;
use vstd::prelude::*;

verus! {

/// EXIF metadata of an image.
#[derive(Debug, Clone)]
pub struct ExifMetadata {
    pub make: Option<String>,
    pub model: Option<String>,
    pub datetime: Option<String>,
    pub exposure_time: Option<String>,
    pub f_number: Option<String>,
    pub iso: Option<String>,
    pub focal_length: Option<String>,
    pub gps_latitude: Option<String>,
    pub gps_longitude: Option<String>,
    pub orientation: Option<String>,
    pub software: Option<String>,
    /// Further tags, by name.
    pub other_tags: Vec<(String, String)>,
}

impl Default for ExifMetadata {
    fn default() -> (res: Self)
        ensures
            res.make is None && res.model is None && res.datetime is None && res.exposure_time is None
                && res.f_number is None && res.iso is None && res.focal_length is None
                && res.gps_latitude is None && res.gps_longitude is None && res.orientation is None
                && res.software is None && res.other_tags@.len() == 0,
    {
        ExifMetadata {
            make: None,
            model: None,
            datetime: None,
            exposure_time: None,
            f_number: None,
            iso: None,
            focal_length: None,
            gps_latitude: None,
            gps_longitude: None,
            orientation: None,
            software: None,
            other_tags: Vec::new(),
        }
    }
}

/// A difference in EXIF metadata between two images.
#[derive(Debug, Clone)]
pub struct ExifDifference {
    pub tag_name: String,
    pub left_value: Option<String>,
    pub right_value: Option<String>,
}

/// How images are compared.
#[derive(Debug, Clone, Copy, PartialEq, Eq, Structural)]
pub enum ImageCompareMode {
    /// Count pixels that differ by any amount.
    Exact,
    /// Count pixels that differ by more than a threshold.
    Threshold(u8),
    /// Compare perceptual similarity.
    Perceptual,
}

impl Default for ImageCompareMode {
    fn default() -> (res: Self)
        ensures
            res == ImageCompareMode::Threshold(1),
    {
        ImageCompareMode::Threshold(1)
    }
}

/// Settings of an image comparison.
pub struct ImageDiffEngine {
    pub mode: ImageCompareMode,
    /// Compare EXIF metadata if available.
    pub compare_exif: bool,
    /// Pixel difference tolerance (0-255).
    pub tolerance: u8,
}

/// The optional text as an optional character sequence.
pub open spec fn opt_text(s: Option<String>) -> Option<Seq<char>> {
    match s {
        Some(t) => Some(t@),
        None => None,
    }
}

/// The EXIF fields that are compared, with their tag names, in order.
pub open spec fn exif_fields(e: ExifMetadata) -> Seq<(Seq<char>, Option<Seq<char>>)> {
    seq![
        (TAG_MAKE@, opt_text(e.make)),
        (TAG_MODEL@, opt_text(e.model)),
        (TAG_DATETIME@, opt_text(e.datetime)),
        (TAG_EXPOSURE@, opt_text(e.exposure_time)),
        (TAG_F_NUMBER@, opt_text(e.f_number)),
        (TAG_ISO@, opt_text(e.iso)),
        (TAG_FOCAL@, opt_text(e.focal_length)),
        (TAG_GPS_LAT@, opt_text(e.gps_latitude)),
        (TAG_GPS_LON@, opt_text(e.gps_longitude)),
        (TAG_ORIENTATION@, opt_text(e.orientation)),
        (TAG_SOFTWARE@, opt_text(e.software)),
    ]
}

/// The differing fields among the first `n` compared fields.
pub open spec fn field_diffs(
    l: Seq<(Seq<char>, Option<Seq<char>>)>,
    r: Seq<(Seq<char>, Option<Seq<char>>)>,
    n: int,
) -> Seq<(Seq<char>, Option<Seq<char>>, Option<Seq<char>>)>
    decreases n,
{
    if n <= 0 {
        Seq::empty()
    } else if l[n - 1].1 != r[n - 1].1 {
        field_diffs(l, r, n - 1).push((l[n - 1].0, l[n - 1].1, r[n - 1].1))
    } else {
        field_diffs(l, r, n - 1)
    }
}

/// The EXIF differences: with metadata on both sides, each compared field
/// whose values differ; with metadata on one side only, one `EXIF Data`
/// entry marking that side `Present`; nothing when neither has metadata.
pub open spec fn exif_diffs(
    left: Option<ExifMetadata>,
    right: Option<ExifMetadata>,
) -> Seq<(Seq<char>, Option<Seq<char>>, Option<Seq<char>>)> {
    match (left, right) {
        (Some(l), Some(r)) => field_diffs(exif_fields(l), exif_fields(r), 11),
        (Some(_), None) => seq![(TAG_EXIF@, Some(PRESENT@), None)],
        (None, Some(_)) => seq![(TAG_EXIF@, None, Some(PRESENT@))],
        (None, None) => Seq::empty(),
    }
}

/// The models of EXIF differences.
pub open spec fn exif_diffs_view(v: Seq<ExifDifference>) -> Seq<(Seq<char>, Option<Seq<char>>, Option<Seq<char>>)> {
    v.map_values(|d: ExifDifference| (d.tag_name@, opt_text(d.left_value), opt_text(d.right_value)))
}

pub const TAG_MAKE: &'static str = "Make";
pub const TAG_MODEL: &'static str = "Model";
pub const TAG_DATETIME: &'static str = "DateTime";
pub const TAG_EXPOSURE: &'static str = "ExposureTime";
pub const TAG_F_NUMBER: &'static str = "FNumber";
pub const TAG_ISO: &'static str = "ISO";
pub const TAG_FOCAL: &'static str = "FocalLength";
pub const TAG_GPS_LAT: &'static str = "GPSLatitude";
pub const TAG_GPS_LON: &'static str = "GPSLongitude";
pub const TAG_ORIENTATION: &'static str = "Orientation";
pub const TAG_SOFTWARE: &'static str = "Software";
pub const TAG_EXIF: &'static str = "EXIF Data";
pub const PRESENT: &'static str = "Present";

/// Extensions of image files.
pub const IMAGE_EXTENSIONS: [&'static str; 16] = [
    "png", "jpg", "jpeg", "gif", "bmp", "ico", "tiff", "tif", "webp", "pnm", "pbm", "pgm", "ppm",
    "dds", "tga", "ff",
];

/// A copy of an optional text.
fn copy_opt(s: &Option<String>) -> (res: Option<String>)
    ensures
        opt_text(res) == opt_text(*s),
{
    match s {
        Some(t) => Some(string_from_chars(chars_of(t.as_str()).as_slice())),
        None => None,
    }
}

/// Whether two optional texts are equal.
fn same_opt(a: &Option<String>, b: &Option<String>) -> (res: bool)
    ensures
        res == (opt_text(*a) == opt_text(*b)),
{
    match (a, b) {
        (Some(x), Some(y)) => same_text(x.as_str(), y.as_str()),
        (None, None) => true,
        _ => false,
    }
}

/// Appends a difference for field `tag` when its values differ.
fn push_if_different(
    out: &mut Vec<ExifDifference>,
    tag: &str,
    l: &Option<String>,
    r: &Option<String>,
)
    ensures
        exif_diffs_view(final(out)@) == if opt_text(*l) != opt_text(*r) {
            exif_diffs_view(old(out)@).push((tag@, opt_text(*l), opt_text(*r)))
        } else {
            exif_diffs_view(old(out)@)
        },
{
    if !same_opt(l, r) {
        let d = ExifDifference {
            tag_name: string_from_chars(chars_of(tag).as_slice()),
            left_value: copy_opt(l),
            right_value: copy_opt(r),
        };
        let ghost before = exif_diffs_view(out@);
        out.push(d);
        assert(exif_diffs_view(out@) =~= before.push((tag@, opt_text(*l), opt_text(*r))));
    }
}

impl ImageDiffEngine {
    pub fn new() -> (res: Self)
        ensures
            res.mode == ImageCompareMode::Threshold(1),
            !res.compare_exif,
            res.tolerance == 1,
    {
        ImageDiffEngine { mode: ImageCompareMode::Threshold(1), compare_exif: false, tolerance: 1 }
    }

    pub fn with_mode(self, mode: ImageCompareMode) -> (res: Self)
        ensures
            res.mode == mode,
            res.compare_exif == self.compare_exif,
            res.tolerance == self.tolerance,
    {
        ImageDiffEngine { mode, ..self }
    }

    pub fn with_exif_compare(self, enabled: bool) -> (res: Self)
        ensures
            res.compare_exif == enabled,
            res.mode == self.mode,
            res.tolerance == self.tolerance,
    {
        ImageDiffEngine { compare_exif: enabled, ..self }
    }

    pub fn with_tolerance(self, tolerance: u8) -> (res: Self)
        ensures
            res.tolerance == tolerance,
            res.mode == self.mode,
            res.compare_exif == self.compare_exif,
    {
        ImageDiffEngine { tolerance, ..self }
    }

    pub fn set_tolerance(&mut self, tolerance: u8)
        ensures
            final(self).tolerance == tolerance,
            final(self).mode == old(self).mode,
            final(self).compare_exif == old(self).compare_exif,
    {
        self.tolerance = tolerance;
    }

    pub fn tolerance(&self) -> (res: u8)
        ensures
            res == self.tolerance,
    {
        self.tolerance
    }

    /// The differences between two images' EXIF metadata.
    pub fn compare_exif_metadata(&self, left: &Option<ExifMetadata>, right: &Option<ExifMetadata>) -> (res: Vec<ExifDifference>)
        ensures
            exif_diffs_view(res@) == exif_diffs(*left, *right),
    {
        let mut differences: Vec<ExifDifference> = Vec::new();
        match (left, right) {
            (Some(l), Some(r)) => {
                let ghost lf = exif_fields(*l);
                let ghost rf = exif_fields(*r);
                assert(exif_diffs_view(differences@) =~= field_diffs(lf, rf, 0));
                push_if_different(&mut differences, TAG_MAKE, &l.make, &r.make);
                assert(exif_diffs_view(differences@) == field_diffs(lf, rf, 1));
                push_if_different(&mut differences, TAG_MODEL, &l.model, &r.model);
                assert(exif_diffs_view(differences@) == field_diffs(lf, rf, 2));
                push_if_different(&mut differences, TAG_DATETIME, &l.datetime, &r.datetime);
                assert(exif_diffs_view(differences@) == field_diffs(lf, rf, 3));
                push_if_different(&mut differences, TAG_EXPOSURE, &l.exposure_time, &r.exposure_time);
                assert(exif_diffs_view(differences@) == field_diffs(lf, rf, 4));
                push_if_different(&mut differences, TAG_F_NUMBER, &l.f_number, &r.f_number);
                assert(exif_diffs_view(differences@) == field_diffs(lf, rf, 5));
                push_if_different(&mut differences, TAG_ISO, &l.iso, &r.iso);
                assert(exif_diffs_view(differences@) == field_diffs(lf, rf, 6));
                push_if_different(&mut differences, TAG_FOCAL, &l.focal_length, &r.focal_length);
                assert(exif_diffs_view(differences@) == field_diffs(lf, rf, 7));
                push_if_different(&mut differences, TAG_GPS_LAT, &l.gps_latitude, &r.gps_latitude);
                assert(exif_diffs_view(differences@) == field_diffs(lf, rf, 8));
                push_if_different(&mut differences, TAG_GPS_LON, &l.gps_longitude, &r.gps_longitude);
                assert(exif_diffs_view(differences@) == field_diffs(lf, rf, 9));
                push_if_different(&mut differences, TAG_ORIENTATION, &l.orientation, &r.orientation);
                assert(exif_diffs_view(differences@) == field_diffs(lf, rf, 10));
                push_if_different(&mut differences, TAG_SOFTWARE, &l.software, &r.software);
                assert(exif_diffs_view(differences@) == field_diffs(lf, rf, 11));
            },
            (Some(_), None) => {
                let d = ExifDifference {
                    tag_name: string_from_chars(chars_of(TAG_EXIF).as_slice()),
                    left_value: Some(string_from_chars(chars_of(PRESENT).as_slice())),
                    right_value: None,
                };
                differences.push(d);
                assert(exif_diffs_view(differences@) =~= exif_diffs(*left, *right));
            },
            (None, Some(_)) => {
                let d = ExifDifference {
                    tag_name: string_from_chars(chars_of(TAG_EXIF).as_slice()),
                    left_value: None,
                    right_value: Some(string_from_chars(chars_of(PRESENT).as_slice())),
                };
                differences.push(d);
                assert(exif_diffs_view(differences@) =~= exif_diffs(*left, *right));
            },
            (None, None) => {
                assert(exif_diffs_view(differences@) =~= exif_diffs(*left, *right));
            },
        }
        differences
    }
}

/// The absolute difference of two channel values.
pub fn channel_diff(a: u8, b: u8) -> (res: u8)
    ensures
        res == if a >= b { a - b } else { b - a },
{
    if a >= b { a - b } else { b - a }
}

/// The sum of the channel differences of two RGBA pixels.
pub fn pixel_difference(left: [u8; 4], right: [u8; 4]) -> (res: u32)
    ensures
        res == abs_diff(left[0], right[0]) + abs_diff(left[1], right[1]) + abs_diff(left[2], right[2])
            + abs_diff(left[3], right[3]),
{
    channel_diff(left[0], right[0]) as u32 + channel_diff(left[1], right[1]) as u32
        + channel_diff(left[2], right[2]) as u32 + channel_diff(left[3], right[3]) as u32
}

/// The absolute difference of two channel values.
pub open spec fn abs_diff(a: u8, b: u8) -> int {
    if a >= b { a - b } else { b - a }
}

/// Whether some channel of two RGBA pixels differs by more than `threshold`.
pub fn channels_exceed(left: [u8; 4], right: [u8; 4], threshold: u8) -> (res: bool)
    ensures
        res == exists|i: int| 0 <= i < 4 && abs_diff(left[i], right[i]) > threshold,
{
    let r = channel_diff(left[0], right[0]) > threshold || channel_diff(left[1], right[1]) > threshold
        || channel_diff(left[2], right[2]) > threshold || channel_diff(left[3], right[3]) > threshold;
    assert(r ==> exists|i: int| 0 <= i < 4 && abs_diff(left[i], right[i]) > threshold) by {
        if abs_diff(left[0], right[0]) > threshold {
            assert(0 <= 0int < 4 && abs_diff(left[0int], right[0int]) > threshold);
        } else if abs_diff(left[1], right[1]) > threshold {
            assert(0 <= 1int < 4 && abs_diff(left[1int], right[1int]) > threshold);
        } else if abs_diff(left[2], right[2]) > threshold {
            assert(0 <= 2int < 4 && abs_diff(left[2int], right[2int]) > threshold);
        } else if abs_diff(left[3], right[3]) > threshold {
            assert(0 <= 3int < 4 && abs_diff(left[3int], right[3int]) > threshold);
        }
    }
    r
}

impl ImageDiffEngine {
    /// The per-channel threshold above which two pixels differ: the
    /// tolerance in exact mode, the larger of the mode's threshold and the
    /// tolerance in threshold mode; none in perceptual mode, which compares
    /// luminance instead.
    pub fn channel_threshold(&self) -> (res: Option<u8>)
        ensures
            res == match self.mode {
                ImageCompareMode::Exact => Some(self.tolerance),
                ImageCompareMode::Threshold(t) => Some(if t >= self.tolerance { t } else { self.tolerance }),
                ImageCompareMode::Perceptual => None::<u8>,
            },
    {
        match self.mode {
            ImageCompareMode::Exact => Some(self.tolerance),
            ImageCompareMode::Threshold(t) => Some(if t >= self.tolerance { t } else { self.tolerance }),
            ImageCompareMode::Perceptual => None,
        }
    }

    /// Counts the pixels that differ between two equally sized RGBA pixel
    /// buffers under a per-channel threshold mode; `None` in perceptual mode.
    pub fn count_different_pixels(&self, left: &Vec<[u8; 4]>, right: &Vec<[u8; 4]>) -> (res: Option<u64>)
        requires
            left@.len() == right@.len(),
            left@.len() <= u64::MAX,
        ensures
            match self.channel_threshold_spec() {
                Some(t) => res == Some(count_exceeding(left@, right@, t, left@.len() as int) as u64),
                None => res is None,
            },
    {
        let t = match self.channel_threshold() {
            Some(t) => t,
            None => return None,
        };
        let mut count: u64 = 0;
        let mut i: usize = 0;
        while i < left.len()
            invariant
                left@.len() == right@.len(),
                left@.len() <= u64::MAX,
                0 <= i <= left@.len(),
                count == count_exceeding(left@, right@, t, i as int),
                count <= i,
            decreases left@.len() - i,
        {
            if channels_exceed(left[i], right[i], t) {
                count = count + 1;
            }
            i = i + 1;
        }
        Some(count)
    }

    /// The per-channel threshold, as a model.
    pub open spec fn channel_threshold_spec(&self) -> Option<u8> {
        match self.mode {
            ImageCompareMode::Exact => Some(self.tolerance),
            ImageCompareMode::Threshold(t) => Some(if t >= self.tolerance { t } else { self.tolerance }),
            ImageCompareMode::Perceptual => None::<u8>,
        }
    }
}

/// The summed channel differences of the first `n` pixels.
pub open spec fn total_difference(left: Seq<[u8; 4]>, right: Seq<[u8; 4]>, n: int) -> int
    decreases n,
{
    if n <= 0 {
        0
    } else {
        total_difference(left, right, n - 1) + abs_diff(left[n - 1][0], right[n - 1][0]) + abs_diff(
            left[n - 1][1],
            right[n - 1][1],
        ) + abs_diff(left[n - 1][2], right[n - 1][2]) + abs_diff(left[n - 1][3], right[n - 1][3])
    }
}

/// The sum over all pixels of their summed channel differences (from
/// which a caller derives the mean difference per channel).
pub fn sum_pixel_differences(left: &Vec<[u8; 4]>, right: &Vec<[u8; 4]>) -> (res: u64)
    requires
        left@.len() == right@.len(),
        left@.len() * 1020 <= u64::MAX,
    ensures
        res == total_difference(left@, right@, left@.len() as int),
{
    let mut total: u64 = 0;
    let n = left.len();
    for i in 0..n
        invariant
            n == left@.len(),
            left@.len() == right@.len(),
            n * 1020 <= u64::MAX,
            total == total_difference(left@, right@, i as int),
            total <= 1020 * i,
    {
        let d = pixel_difference(left[i], right[i]);
        total = total + d as u64;
    }
    total
}

/// Whether pixel `i` of two buffers differs under `threshold`.
pub open spec fn pixel_exceeds(left: Seq<[u8; 4]>, right: Seq<[u8; 4]>, t: u8, i: int) -> bool {
    exists|c: int| 0 <= c < 4 && abs_diff(left[i][c], right[i][c]) > t
}

/// How many of the first `n` pixels differ under `threshold`.
pub open spec fn count_exceeding(left: Seq<[u8; 4]>, right: Seq<[u8; 4]>, t: u8, n: int) -> nat
    decreases n,
{
    if n <= 0 {
        0
    } else {
        count_exceeding(left, right, t, n - 1) + if pixel_exceeds(left, right, t, n - 1) { 1nat } else { 0nat }
    }
}

impl Default for ImageDiffEngine {
    fn default() -> (res: Self)
        ensures
            res.mode == ImageCompareMode::Threshold(1),
            !res.compare_exif,
            res.tolerance == 1,
    {
        Self::new()
    }
}

/// Whether a file is an image, by its extension.
pub fn is_image_file(path: &str) -> (res: bool)
    ensures
        res == extension_in(path@, IMAGE_EXTENSIONS@),
{
    has_extension_in(path, &IMAGE_EXTENSIONS)
}

/// Comparing a pixel buffer with itself finds no differing pixel.
pub proof fn lemma_pixels_self(x: Seq<[u8; 4]>, t: u8, n: int)
    ensures
        count_exceeding(x, x, t, n) == 0,
    decreases n,
{
    if n > 0 {
        lemma_pixels_self(x, t, n - 1);
        assert(!pixel_exceeds(x, x, t, n - 1));
    }
}


/// What the `image` crate decodes from the bytes of an image file: its
/// width, height and RGBA pixels row by row, or the decoder's message.
pub uninterp spec fn rgba_of(data: Seq<u8>) -> Result<(u32, u32, Seq<[u8; 4]>), Seq<char>>;

/// The model of a decoded image.
pub open spec fn rgba_model(img: RgbaPixels) -> (u32, u32, Seq<[u8; 4]>) {
    (img.width, img.height, img.pixels@)
}

/// Decodes an image by `image::load_from_memory` and converts it with
/// `DynamicImage::to_rgba8`. Claimed: the result is the named result
/// `rgba_of` of the bytes, the error as the decoder's message shows it;
/// a decoded image holds one pixel per position, as `ImageBuffer::pixels`
/// yields them.
#[verifier::external_body]
fn decode_rgba(data: &[u8]) -> (res: Result<RgbaPixels, String>)
    ensures
        match res {
            Ok(img) => rgba_of(data@) == Ok::<(u32, u32, Seq<[u8; 4]>), Seq<char>>(rgba_model(img))
                && pixels_wf(img),
            Err(e) => rgba_of(data@) == Err::<(u32, u32, Seq<[u8; 4]>), Seq<char>>(e@),
        },
{
    match image::load_from_memory(data) {
        Ok(img) => {
            let rgba = img.to_rgba8();
            Ok(RgbaPixels { width: rgba.width(), height: rgba.height(), pixels: rgba.pixels().map(|p| p.0).collect() })
        },
        Err(e) => Err(e.to_string()),
    }
}

pub const LEFT_IMAGE_ERROR: &'static str = "Failed to open left image: ";
pub const RIGHT_IMAGE_ERROR: &'static str = "Failed to open right image: ";

/// Decodes one image of a pair; a failure becomes an I/O error whose
/// message starts with `prefix`.
fn decode_side(data: &[u8], prefix: &str) -> (res: Result<RgbaPixels, RCompareError>)
    ensures
        match rgba_of(data@) {
            Ok(m) => res matches Ok(img) && rgba_model(img) == m && pixels_wf(img),
            Err(e) => res matches Err(RCompareError::Io(msg)) && msg@ == prefix@ + e,
        },
{
    match decode_rgba(data) {
        Ok(img) => Ok(img),
        Err(e) => Err(RCompareError::Io(concat_str(prefix, e.as_str()))),
    }
}

/// Decodes the two images of a comparison, the left one first. An I/O
/// error names the side that could not be decoded and the decoder's
/// message.
pub fn decode_images(left: &[u8], right: &[u8]) -> (res: Result<(RgbaPixels, RgbaPixels), RCompareError>)
    ensures
        match (rgba_of(left@), rgba_of(right@)) {
            (Err(e), _) => res matches Err(RCompareError::Io(msg)) && msg@ == LEFT_IMAGE_ERROR@ + e,
            (Ok(_), Err(e)) => res matches Err(RCompareError::Io(msg)) && msg@ == RIGHT_IMAGE_ERROR@ + e,
            (Ok(l), Ok(r)) => res matches Ok((a, b)) && rgba_model(a) == l && rgba_model(b) == r
                && pixels_wf(a) && pixels_wf(b),
        },
{
    let a = decode_side(left, LEFT_IMAGE_ERROR)?;
    let b = decode_side(right, RIGHT_IMAGE_ERROR)?;
    Ok((a, b))
}

/// The counts of a pixel comparison of two images.
#[derive(Debug)]
pub struct PixelComparison {
    /// Pixels compared: those of the larger image when the sizes differ.
    pub total_pixels: u64,
    /// Pixels that differ; all of them when the sizes differ; `None` in
    /// perceptual mode, which compares luminance instead.
    pub different_pixels: Option<u64>,
    /// The summed channel differences of all pixels; `None` when the
    /// sizes differ.
    pub difference_sum: Option<u64>,
    pub same_dimensions: bool,
    pub left_dimensions: (u32, u32),
    pub right_dimensions: (u32, u32),
}

/// The result of an image comparison: the pixel counts and the EXIF
/// metadata of both sides with their differences.
#[derive(Debug)]
pub struct ImageDiffResult {
    pub pixels: PixelComparison,
    pub left_exif: Option<ExifMetadata>,
    pub right_exif: Option<ExifMetadata>,
    pub exif_differences: Vec<ExifDifference>,
}

/// The number of pixels of an image of the given size.
pub open spec fn area(w: u32, h: u32) -> int {
    w * h
}

/// The number of pixels of an image of the given size.
fn pixel_count(w: u32, h: u32) -> (res: u64)
    ensures
        res == area(w, h),
{
    assert(0 <= w * h <= u32::MAX * u32::MAX) by (nonlinear_arith);
    assert(u32::MAX * u32::MAX <= u64::MAX) by (nonlinear_arith);
    w as u64 * h as u64
}

/// The larger of two pixel counts.
pub open spec fn larger(a: int, b: int) -> int {
    if a >= b {
        a
    } else {
        b
    }
}

impl ImageDiffEngine {
    /// The counts of comparing two decoded images, given by their models.
    /// Images of different sizes differ in every pixel of the larger one;
    /// images of the same size are compared pixel by pixel under the
    /// per-channel threshold, and their channel differences summed.
    pub open spec fn pixels_compared(
        &self,
        l: (u32, u32, Seq<[u8; 4]>),
        r: (u32, u32, Seq<[u8; 4]>),
        res: PixelComparison,
    ) -> bool {
        &&& res.left_dimensions == (l.0, l.1)
        &&& res.right_dimensions == (r.0, r.1)
        &&& res.same_dimensions == (l.0 == r.0 && l.1 == r.1)
        &&& !res.same_dimensions ==> {
            &&& res.total_pixels == larger(area(l.0, l.1), area(r.0, r.1))
            &&& res.different_pixels == Some(res.total_pixels)
            &&& res.difference_sum is None
        }
        &&& res.same_dimensions ==> {
            &&& res.total_pixels == area(l.0, l.1)
            &&& res.different_pixels == match self.channel_threshold_spec() {
                Some(t) => Some(count_exceeding(l.2, r.2, t, l.2.len() as int) as u64),
                None => None::<u64>,
            }
            &&& res.difference_sum == Some(total_difference(l.2, r.2, l.2.len() as int) as u64)
        }
    }

    /// Compares two decoded images (without EXIF metadata).
    pub fn compare_images(&self, left: &RgbaPixels, right: &RgbaPixels) -> (res: PixelComparison)
        requires
            pixels_wf(*left),
            pixels_wf(*right),
            left.pixels@.len() * 1020 <= u64::MAX,
        ensures
            self.pixels_compared(rgba_model(*left), rgba_model(*right), res),
    {
        let lt = pixel_count(left.width, left.height);
        let rt = pixel_count(right.width, right.height);
        let same = left.width == right.width && left.height == right.height;
        if !same {
            let total = if lt >= rt { lt } else { rt };
            return PixelComparison {
                total_pixels: total,
                different_pixels: Some(total),
                difference_sum: None,
                same_dimensions: false,
                left_dimensions: (left.width, left.height),
                right_dimensions: (right.width, right.height),
            };
        }
        let different = self.count_different_pixels(&left.pixels, &right.pixels);
        let sum = sum_pixel_differences(&left.pixels, &right.pixels);
        PixelComparison {
            total_pixels: lt,
            different_pixels: different,
            difference_sum: Some(sum),
            same_dimensions: true,
            left_dimensions: (left.width, left.height),
            right_dimensions: (right.width, right.height),
        }
    }

    /// Compares two decoded images with their EXIF metadata.
    pub fn compare_images_with_exif(
        &self,
        left: &RgbaPixels,
        right: &RgbaPixels,
        left_exif: Option<ExifMetadata>,
        right_exif: Option<ExifMetadata>,
    ) -> (res: ImageDiffResult)
        requires
            pixels_wf(*left),
            pixels_wf(*right),
            left.pixels@.len() * 1020 <= u64::MAX,
        ensures
            self.pixels_compared(rgba_model(*left), rgba_model(*right), res.pixels),
            res.left_exif == left_exif,
            res.right_exif == right_exif,
            exif_diffs_view(res.exif_differences@) == exif_diffs(left_exif, right_exif),
    {
        let exif_differences = self.compare_exif_metadata(&left_exif, &right_exif);
        let pixels = self.compare_images(left, right);
        ImageDiffResult { pixels, left_exif, right_exif, exif_differences }
    }
}

/// Message of a comparison of images too large to sum their differences.
pub const IMAGE_TOO_LARGE: &'static str = "Images too large to compare";

/// The group of EXIF tags a tag number belongs to.
#[derive(Debug, Clone, Copy, PartialEq, Eq, Structural)]
pub enum ExifContext {
    /// TIFF attributes of the image.
    Tiff,
    /// Attributes of the Exif directory.
    Exif,
    /// Attributes of the GPS directory.
    Gps,
}

/// Whether `kamadak-exif` finds readable EXIF data in the bytes of an image.
pub uninterp spec fn exif_readable(data: Seq<u8>) -> bool;

/// The display text of the primary image's field with the given tag, in the
/// EXIF data that `kamadak-exif` reads from the bytes; `None` when there is
/// no such field.
pub uninterp spec fn exif_primary_text(data: Seq<u8>, context: ExifContext, number: u16) -> Option<Seq<char>>;

/// The name and display text of every field of the EXIF data that
/// `kamadak-exif` reads from the bytes, in the order the file holds them,
/// repeated names included.
pub uninterp spec fn exif_field_texts(data: Seq<u8>) -> Seq<(Seq<char>, Seq<char>)>;

/// The tags whose values are compared, by group and number, in the order
/// of `exif_fields`: Make, Model, DateTime, ExposureTime, FNumber,
/// PhotographicSensitivity (ISO), FocalLength, GPSLatitude, GPSLongitude,
/// Orientation and Software.
pub open spec fn compared_tags() -> Seq<(ExifContext, u16)> {
    seq![
        (ExifContext::Tiff, 0x10fu16),
        (ExifContext::Tiff, 0x110u16),
        (ExifContext::Tiff, 0x132u16),
        (ExifContext::Exif, 0x829au16),
        (ExifContext::Exif, 0x829du16),
        (ExifContext::Exif, 0x8827u16),
        (ExifContext::Exif, 0x920au16),
        (ExifContext::Gps, 0x2u16),
        (ExifContext::Gps, 0x4u16),
        (ExifContext::Tiff, 0x112u16),
        (ExifContext::Tiff, 0x131u16),
    ]
}

/// The display texts of the compared tags in the EXIF data of the bytes.
pub open spec fn primary_texts(data: Seq<u8>) -> Seq<Option<Seq<char>>> {
    compared_tags().map_values(|t: (ExifContext, u16)| exif_primary_text(data, t.0, t.1))
}

#[verifier::external_type_specification]
#[verifier::external_body]
pub struct ExExif(exif::Exif);

/// The EXIF data read from the bytes of an image, with those bytes.
pub struct ExifData {
    inner: exif::Exif,
    source: Ghost<Seq<u8>>,
}

impl ExifData {
    /// The bytes the data was read from.
    pub closed spec fn source(&self) -> Seq<u8> {
        self.source@
    }
}

/// The texts of a list of named values.
pub open spec fn tags_view(s: Seq<(String, String)>) -> Seq<(Seq<char>, Seq<char>)> {
    s.map_values(|p: (String, String)| (p.0@, p.1@))
}

/// The model of EXIF metadata: the compared fields' texts in the order of
/// `exif_fields`, and the further tags.
pub open spec fn exif_model(e: ExifMetadata) -> (Seq<Option<Seq<char>>>, Seq<(Seq<char>, Seq<char>)>) {
    (exif_fields(e).map_values(|f: (Seq<char>, Option<Seq<char>>)| f.1), tags_view(e.other_tags@))
}

/// Whether some entry of `s` has the name `name`.
pub open spec fn has_name(s: Seq<(Seq<char>, Seq<char>)>, name: Seq<char>) -> bool {
    exists|j: int| 0 <= j < s.len() && (#[trigger] s[j]).0 == name
}

/// The entries of `s` whose name no earlier entry has: the first value of
/// each name, in order.
pub open spec fn first_values(s: Seq<(Seq<char>, Seq<char>)>) -> Seq<(Seq<char>, Seq<char>)>
    decreases s.len(),
{
    if s.len() == 0 {
        Seq::empty()
    } else {
        let prev = first_values(s.drop_last());
        if has_name(prev, s.last().0) {
            prev
        } else {
            prev.push(s.last())
        }
    }
}

/// Reads the EXIF data of an image by `exif::Reader::read_from_container`.
/// Claimed: data is found exactly where the named result `exif_readable`
/// says so, and it is kept with the bytes it was read from (nothing else
/// makes an `ExifData`).
#[verifier::external_body]
fn read_exif(data: &[u8]) -> (res: Option<ExifData>)
    ensures
        match res {
            Some(e) => exif_readable(data@) && e.source() == data@,
            None => !exif_readable(data@),
        },
{
    let exif = Reader::new().read_from_container(&mut Cursor::new(data)).ok()?;
    Some(ExifData { inner: exif, source: Ghost(data@) })
}

/// The primary image's field with the given tag, by `Exif::get_field`
/// with `In::PRIMARY`, as its `display_value` shows it. Claimed: the
/// result is the named result `exif_primary_text` of the bytes and tag.
#[verifier::external_body]
fn primary_field_text(e: &ExifData, context: ExifContext, number: u16) -> (res: Option<String>)
    ensures
        opt_text(res) == exif_primary_text(e.source(), context, number),
{
    let ctx = match context {
        ExifContext::Tiff => Context::Tiff,
        ExifContext::Exif => Context::Exif,
        ExifContext::Gps => Context::Gps,
    };
    e.inner.get_field(Tag(ctx, number), In::PRIMARY).map(|f| f.display_value().to_string())
}

/// Every field by `Exif::fields`: its tag's `Debug` form and its value as
/// its `display_value` shows it. Claimed: the result is the named result
/// `exif_field_texts` of the bytes.
#[verifier::external_body]
fn field_texts(e: &ExifData) -> (res: Vec<(String, String)>)
    ensures
        tags_view(res@) == exif_field_texts(e.source()),
{
    e.inner.fields().map(|f| (format!("{:?}", f.tag), f.display_value().to_string())).collect()
}

/// A copy of a text.
fn copy_text(s: &String) -> (res: String)
    ensures
        res@ == s@,
{
    string_from_chars(chars_of(s.as_str()).as_slice())
}

/// Whether some entry of `v` has the name `name`.
fn has_tag(v: &Vec<(String, String)>, name: &str) -> (res: bool)
    ensures
        res == has_name(tags_view(v@), name@),
{
    let n = v.len();
    for j in 0..n
        invariant
            n == v@.len(),
            forall|k: int| 0 <= k < j ==> (#[trigger] v@[k]).0@ != name@,
    {
        if same_text(v[j].0.as_str(), name) {
            assert(tags_view(v@)[j as int].0 == name@);
            return true;
        }
    }
    assert(!has_name(tags_view(v@), name@)) by {
        assert forall|k: int| 0 <= k < tags_view(v@).len() implies (#[trigger] tags_view(v@)[k]).0 != name@ by {
            assert(tags_view(v@)[k].0 == v@[k].0@);
        }
    }
    false
}

/// The first value of each name among `fields`, in order.
pub fn first_of_each_tag(fields: &Vec<(String, String)>) -> (res: Vec<(String, String)>)
    ensures
        tags_view(res@) == first_values(tags_view(fields@)),
{
    let mut out: Vec<(String, String)> = Vec::new();
    let n = fields.len();
    for i in 0..n
        invariant
            n == fields@.len(),
            tags_view(out@) == first_values(tags_view(fields@).take(i as int)),
    {
        let ghost s = tags_view(fields@).take(i as int + 1);
        assert(s.drop_last() =~= tags_view(fields@).take(i as int));
        assert(s.last() == (fields@[i as int].0@, fields@[i as int].1@));
        if !has_tag(&out, fields[i].0.as_str()) {
            let name = copy_text(&fields[i].0);
            let value = copy_text(&fields[i].1);
            let ghost before = out@;
            out.push((name, value));
            assert(tags_view(out@) =~= tags_view(before).push(s.last()));
        }
    }
    assert(tags_view(fields@).take(n as int) =~= tags_view(fields@));
    out
}

impl ImageDiffEngine {
    /// The EXIF metadata of an image's bytes, when EXIF comparison is on
    /// and the bytes hold readable EXIF data: the compared tags' values of
    /// the primary image, and the first value of each field name as the
    /// further tags.
    pub fn extract_exif(&self, data: &[u8]) -> (res: Option<ExifMetadata>)
        ensures
            self.exif_read(data@, res),
    {
        if !self.compare_exif {
            return None;
        }
        let e = match read_exif(data) {
            Some(e) => e,
            None => return None,
        };
        let fields = field_texts(&e);
        let m = ExifMetadata {
            make: primary_field_text(&e, ExifContext::Tiff, 0x10f),
            model: primary_field_text(&e, ExifContext::Tiff, 0x110),
            datetime: primary_field_text(&e, ExifContext::Tiff, 0x132),
            exposure_time: primary_field_text(&e, ExifContext::Exif, 0x829a),
            f_number: primary_field_text(&e, ExifContext::Exif, 0x829d),
            iso: primary_field_text(&e, ExifContext::Exif, 0x8827),
            focal_length: primary_field_text(&e, ExifContext::Exif, 0x920a),
            gps_latitude: primary_field_text(&e, ExifContext::Gps, 0x2),
            gps_longitude: primary_field_text(&e, ExifContext::Gps, 0x4),
            orientation: primary_field_text(&e, ExifContext::Tiff, 0x112),
            software: primary_field_text(&e, ExifContext::Tiff, 0x131),
            other_tags: first_of_each_tag(&fields),
        };
        assert(exif_model(m).0 =~= primary_texts(data@));
        Some(m)
    }
}

impl ImageDiffEngine {
    /// The EXIF metadata that `extract_exif` gives for the bytes.
    pub open spec fn exif_read(&self, data: Seq<u8>, res: Option<ExifMetadata>) -> bool {
        if self.compare_exif && exif_readable(data) {
            res matches Some(m) && exif_model(m) == (primary_texts(data), first_values(exif_field_texts(data)))
        } else {
            res is None
        }
    }

    /// Compares two image files from their bytes: reads the EXIF metadata
    /// of each (when enabled), decodes both images, the left one first,
    /// and compares them. An I/O error names the side that could not be
    /// decoded; images too large to sum their differences are refused.
    pub fn compare_files(&self, left: &[u8], right: &[u8]) -> (res: Result<ImageDiffResult, RCompareError>)
        ensures
            match (rgba_of(left@), rgba_of(right@)) {
                (Err(e), _) => res matches Err(RCompareError::Io(msg)) && msg@ == LEFT_IMAGE_ERROR@ + e,
                (Ok(_), Err(e)) => res matches Err(RCompareError::Io(msg)) && msg@ == RIGHT_IMAGE_ERROR@ + e,
                (Ok(l), Ok(r)) => if l.2.len() * 1020 > u64::MAX {
                    res matches Err(RCompareError::Comparison(msg)) && msg@ == IMAGE_TOO_LARGE@
                } else {
                    res matches Ok(d) && self.pixels_compared(l, r, d.pixels) && self.exif_read(left@, d.left_exif)
                        && self.exif_read(right@, d.right_exif) && exif_diffs_view(d.exif_differences@) == exif_diffs(
                        d.left_exif,
                        d.right_exif,
                    )
                },
            },
    {
        let left_exif = self.extract_exif(left);
        let right_exif = self.extract_exif(right);
        let (l, r) = decode_images(left, right)?;
        if l.pixels.len() as u128 * 1020 > u64::MAX as u128 {
            return Err(RCompareError::Comparison(string_from_chars(chars_of(IMAGE_TOO_LARGE).as_slice())));
        }
        Ok(self.compare_images_with_exif(&l, &r, left_exif, right_exif))
    }
}

} // verus!
