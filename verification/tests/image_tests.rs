use rcompare::error::RCompareError;
use rcompare::image_compose::RgbaPixels;
use rcompare::image_diff::{decode_images, first_of_each_tag, ImageCompareMode, ImageDiffEngine};
use std::io::Cursor;

fn filled(width: u32, height: u32, pixel: [u8; 4]) -> RgbaPixels {
    RgbaPixels { width, height, pixels: vec![pixel; (width * height) as usize] }
}

fn png_bytes(img: &RgbaPixels) -> Vec<u8> {
    let flat: Vec<u8> = img.pixels.iter().flat_map(|p| p.iter().copied()).collect();
    let buffer = image::RgbaImage::from_raw(img.width, img.height, flat).unwrap();
    let mut out = Cursor::new(Vec::new());
    image::DynamicImage::ImageRgba8(buffer).write_to(&mut out, image::ImageFormat::Png).unwrap();
    out.into_inner()
}

fn percentage(different: u64, total: u64) -> f64 {
    different as f64 / total as f64 * 100.0
}

#[test]
fn test_identical_images() {
    let engine = ImageDiffEngine::new();
    let left = filled(10, 10, [100, 150, 200, 255]);
    let right = filled(10, 10, [100, 150, 200, 255]);

    let result = engine.compare_images(&left, &right);

    assert_eq!(result.different_pixels, Some(0));
    assert_eq!(percentage(result.different_pixels.unwrap(), result.total_pixels), 0.0);
}

#[test]
fn test_different_images() {
    let engine = ImageDiffEngine::new();
    let left = filled(10, 10, [100, 150, 200, 255]);
    let right = filled(10, 10, [200, 100, 50, 255]);

    let result = engine.compare_images(&left, &right);

    assert_eq!(result.different_pixels, Some(100));
    assert_eq!(percentage(result.different_pixels.unwrap(), result.total_pixels), 100.0);
}

#[test]
fn test_different_dimensions() {
    let engine = ImageDiffEngine::new();
    let left = filled(10, 10, [0, 0, 0, 0]);
    let right = filled(20, 20, [0, 0, 0, 0]);

    let result = engine.compare_images(&left, &right);

    assert!(!result.same_dimensions);
    assert_eq!(percentage(result.different_pixels.unwrap(), result.total_pixels), 100.0);
    assert_eq!(result.total_pixels, 400);
    assert_eq!(result.difference_sum, None);
}

#[test]
fn image_difference_sum_is_summed_channel_differences() {
    let engine = ImageDiffEngine::new();
    let left = filled(2, 3, [10, 20, 30, 40]);
    let right = filled(2, 3, [12, 17, 30, 41]);
    let result = engine.compare_images(&left, &right);
    assert!(result.same_dimensions);
    assert_eq!(result.total_pixels, 6);
    assert_eq!(result.difference_sum, Some(6 * (2 + 3 + 0 + 1)));
    assert_eq!(result.different_pixels, Some(6));
    assert_eq!(result.left_dimensions, (2, 3));
    assert_eq!(result.right_dimensions, (2, 3));
}

#[test]
fn image_perceptual_mode_leaves_the_count_to_the_caller() {
    let engine = ImageDiffEngine::new().with_mode(ImageCompareMode::Perceptual);
    let result = engine.compare_images(&filled(1, 1, [0; 4]), &filled(1, 1, [9; 4]));
    assert_eq!(result.different_pixels, None);
    assert_eq!(result.difference_sum, Some(36));
}

#[test]
fn decoding_png_bytes_gives_their_pixels() {
    let mut original = filled(3, 2, [1, 2, 3, 255]);
    original.pixels[4] = [200, 100, 50, 255];
    let bytes = png_bytes(&original);
    let (a, b) = decode_images(&bytes, &bytes).unwrap();
    assert_eq!((a.width, a.height), (3, 2));
    assert_eq!(a.pixels, original.pixels);
    assert_eq!(b.pixels, original.pixels);
}

#[test]
fn decoding_garbage_names_the_failing_side() {
    let good = png_bytes(&filled(1, 1, [0, 0, 0, 255]));
    match decode_images(b"not an image", &good) {
        Err(RCompareError::Io(m)) => assert!(m.starts_with("Failed to open left image: ")),
        other => panic!("unexpected {:?}", other.map(|_| ())),
    }
    match decode_images(&good, b"not an image") {
        Err(RCompareError::Io(m)) => assert!(m.starts_with("Failed to open right image: ")),
        other => panic!("unexpected {:?}", other.map(|_| ())),
    }
}

#[test]
fn exif_keeps_the_first_value_of_each_tag() {
    let fields = vec![
        ("Make".to_string(), "a".to_string()),
        ("Model".to_string(), "b".to_string()),
        ("Make".to_string(), "c".to_string()),
    ];
    let kept = first_of_each_tag(&fields);
    assert_eq!(kept, vec![("Make".to_string(), "a".to_string()), ("Model".to_string(), "b".to_string())]);
}

#[test]
fn exif_fields_fill_the_metadata_by_tag() {
    let make = exif::Field {
        tag: exif::Tag::Make,
        ifd_num: exif::In::PRIMARY,
        value: exif::Value::Ascii(vec![b"Canon".to_vec()]),
    };
    let iso = exif::Field {
        tag: exif::Tag::PhotographicSensitivity,
        ifd_num: exif::In::PRIMARY,
        value: exif::Value::Short(vec![400]),
    };
    let software = exif::Field {
        tag: exif::Tag::Software,
        ifd_num: exif::In::PRIMARY,
        value: exif::Value::Ascii(vec![b"GIMP".to_vec()]),
    };
    let mut writer = exif::experimental::Writer::new();
    writer.push_field(&make);
    writer.push_field(&iso);
    writer.push_field(&software);
    let mut out = Cursor::new(Vec::new());
    writer.write(&mut out, false).unwrap();
    let m = ImageDiffEngine::new().with_exif_compare(true).extract_exif(&out.into_inner()).unwrap();
    assert_eq!(m.make.as_deref(), Some("\"Canon\""));
    assert_eq!(m.iso.as_deref(), Some("400"));
    assert_eq!(m.software.as_deref(), Some("\"GIMP\""));
    assert_eq!(m.model, None);
    assert_eq!(m.exposure_time, None);
    assert!(m.other_tags.len() >= 3);
}

#[test]
fn exif_is_read_only_when_enabled() {
    let make = exif::Field {
        tag: exif::Tag::Make,
        ifd_num: exif::In::PRIMARY,
        value: exif::Value::Ascii(vec![b"Canon".to_vec()]),
    };
    let mut writer = exif::experimental::Writer::new();
    writer.push_field(&make);
    let mut out = Cursor::new(Vec::new());
    writer.write(&mut out, false).unwrap();
    let bytes = out.into_inner();

    let off = ImageDiffEngine::new();
    assert!(off.extract_exif(&bytes).is_none());

    let on = ImageDiffEngine::new().with_exif_compare(true);
    let m = on.extract_exif(&bytes).unwrap();
    assert_eq!(m.make.as_deref(), Some("\"Canon\""));
    assert_eq!(m.model, None);
    assert!(m.other_tags.iter().any(|(_, v)| v == "\"Canon\""));
    assert!(on.extract_exif(b"no exif here").is_none());
}

#[test]
fn compare_files_decodes_compares_and_reads_exif() {
    let left = filled(4, 4, [10, 10, 10, 255]);
    let mut right = filled(4, 4, [10, 10, 10, 255]);
    right.pixels[0] = [200, 10, 10, 255];
    let engine = ImageDiffEngine::new().with_exif_compare(true);
    let result = engine.compare_files(&png_bytes(&left), &png_bytes(&right)).unwrap();
    assert_eq!(result.pixels.total_pixels, 16);
    assert_eq!(result.pixels.different_pixels, Some(1));
    assert_eq!(result.pixels.difference_sum, Some(190));
    assert!(result.left_exif.is_none() && result.right_exif.is_none());
    assert!(result.exif_differences.is_empty());
    match engine.compare_files(b"junk", &png_bytes(&left)) {
        Err(RCompareError::Io(m)) => assert!(m.starts_with("Failed to open left image: ")),
        _ => panic!("expected a decoding error"),
    }
}

#[test]
fn compare_images_with_exif_reports_metadata_differences() {
    let engine = ImageDiffEngine::new();
    let img = filled(1, 1, [0, 0, 0, 255]);
    let mut exif = rcompare::image_diff::ExifMetadata::default();
    exif.make = Some("Canon".to_string());
    let result = engine.compare_images_with_exif(&img, &img, Some(exif), None);
    assert_eq!(result.exif_differences.len(), 1);
    assert_eq!(result.exif_differences[0].tag_name, "EXIF Data");
    assert_eq!(result.pixels.different_pixels, Some(0));
}
