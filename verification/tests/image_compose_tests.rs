use rcompare::error::RCompareError;
use rcompare::image_compose::RgbaPixels;
use rcompare::image_diff::{ImageCompareMode, ImageDiffEngine};

fn image(width: u32, height: u32, pixels: Vec<[u8; 4]>) -> RgbaPixels {
    RgbaPixels { width, height, pixels }
}

#[test]
fn diff_image_marks_differences_in_red() {
    let engine = ImageDiffEngine::new().with_mode(ImageCompareMode::Exact).with_tolerance(0);
    let left = image(2, 1, vec![[30, 60, 90, 255], [10, 20, 30, 255]]);
    let right = image(2, 1, vec![[30, 60, 90, 255], [10, 20, 31, 255]]);
    let out = engine.create_diff_image(&left, &right).unwrap().unwrap();
    assert_eq!((out.width, out.height), (2, 1));
    assert_eq!(out.pixels, vec![[60, 60, 60, 255], [255, 0, 0, 255]]);
}

#[test]
fn diff_image_needs_equal_sizes() {
    let engine = ImageDiffEngine::new();
    let left = image(1, 1, vec![[0; 4]]);
    let right = image(1, 2, vec![[0; 4], [0; 4]]);
    match engine.create_diff_image(&left, &right) {
        Some(Err(RCompareError::Comparison(m))) => {
            assert_eq!(m, "Cannot create diff image for images with different dimensions")
        }
        _ => panic!("images of different sizes have no difference image"),
    }
    let perceptual = ImageDiffEngine::new().with_mode(ImageCompareMode::Perceptual);
    assert!(perceptual.create_diff_image(&left, &left).is_none());
}

#[test]
fn side_by_side_places_both_images() {
    let engine = ImageDiffEngine::new();
    let left = image(1, 2, vec![[1, 1, 1, 255], [2, 2, 2, 255]]);
    let right = image(2, 1, vec![[3, 3, 3, 255], [4, 4, 4, 255]]);
    let out = engine.create_side_by_side(&left, &right);
    assert_eq!((out.width, out.height), (7, 2));
    let grey = [128, 128, 128, 255];
    assert_eq!(
        out.pixels,
        vec![
            [1, 1, 1, 255], grey, grey, grey, grey, [3, 3, 3, 255], [4, 4, 4, 255],
            [2, 2, 2, 255], grey, grey, grey, grey, grey, grey,
        ]
    );
}

#[test]
fn diff_image_of_an_image_with_itself_is_grey() {
    let engine = ImageDiffEngine::new();
    let img = image(3, 1, vec![[90, 0, 0, 10], [3, 3, 3, 0], [255, 255, 255, 255]]);
    let out = engine.create_diff_image(&img, &img).unwrap().unwrap();
    assert_eq!(out.pixels, vec![[30, 30, 30, 255], [3, 3, 3, 255], [255, 255, 255, 255]]);
}
