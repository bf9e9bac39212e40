use handheld_overlay::raster::BoundingBox;
use handheld_overlay::raster::RasterImage;
use handheld_overlay::trim::crop_region;
use handheld_overlay::trim::find_bounding_box;
use handheld_overlay::trim::trim_transparent_pixels;

/// A raster whose pixel at (x, y) is `[x, y, x + 10 * y, alpha(x, y)]`.
fn raster(width: usize, height: usize, alpha: fn(usize, usize) -> u8) -> Vec<u8> {
    let mut out = Vec::new();
    for y in 0..height {
        for x in 0..width {
            out.push(x as u8);
            out.push(y as u8);
            out.push((x + 10 * y) as u8);
            out.push(alpha(x, y));
        }
    }
    out
}

fn framed(x: usize, y: usize) -> u8 {
    if (1..=2).contains(&x) && (1..=2).contains(&y) {
        255
    } else {
        0
    }
}

fn transparent(_x: usize, _y: usize) -> u8 {
    0
}

fn opaque(_x: usize, _y: usize) -> u8 {
    255
}

fn scattered(x: usize, y: usize) -> u8 {
    // Visible pixels at (2, 1), (4, 3) and (3, 5) of a 6 x 7 raster.
    match (x, y) {
        (2, 1) => 9,
        (4, 3) => 200,
        (3, 5) => 2,
        _ => 1,
    }
}

fn at_threshold(x: usize, y: usize) -> u8 {
    if x == 1 && y == 1 {
        8
    } else {
        7
    }
}

#[test]
fn transparent_border_of_one_pixel_is_removed() {
    let source = raster(4, 4, framed);
    let (pixels, width, height) = trim_transparent_pixels(&source, 4, 4, 1);
    assert_eq!((width, height), (2, 2));
    assert_eq!(
        pixels,
        vec![1, 1, 11, 255, 2, 1, 12, 255, 1, 2, 21, 255, 2, 2, 22, 255]
    );
}

#[test]
fn fully_transparent_raster_is_returned_whole() {
    let source = raster(3, 2, transparent);
    let (pixels, width, height) = trim_transparent_pixels(&source, 3, 2, 0);
    assert_eq!((width, height), (3, 2));
    assert_eq!(pixels, source);
}

#[test]
fn raster_below_a_high_threshold_is_returned_whole() {
    let source = raster(3, 3, opaque);
    let (pixels, width, height) = trim_transparent_pixels(&source, 3, 3, 255);
    assert_eq!((width, height), (3, 3));
    assert_eq!(pixels, source);
}

#[test]
fn fully_opaque_raster_keeps_its_size() {
    let source = raster(3, 2, opaque);
    let (pixels, width, height) = trim_transparent_pixels(&source, 3, 2, 1);
    assert_eq!((width, height), (3, 2));
    assert_eq!(pixels, source);
}

#[test]
fn empty_raster_is_returned_whole() {
    let source: Vec<u8> = Vec::new();
    let (pixels, width, height) = trim_transparent_pixels(&source, 0, 5, 1);
    assert_eq!((width, height), (0, 5));
    assert!(pixels.is_empty());
}

#[test]
fn alpha_equal_to_threshold_is_not_visible() {
    let source = raster(3, 3, at_threshold);
    let (pixels, width, height) = trim_transparent_pixels(&source, 3, 3, 7);
    assert_eq!((width, height), (1, 1));
    assert_eq!(pixels, vec![1, 1, 11, 8]);
    let (pixels, width, height) = trim_transparent_pixels(&source, 3, 3, 8);
    assert_eq!((width, height), (3, 3));
    assert_eq!(pixels, source);
}

#[test]
fn bounding_box_encloses_scattered_pixels() {
    let source = raster(6, 7, scattered);
    let b = find_bounding_box(&source, 6, 7, 1).unwrap();
    assert_eq!((b.min_x, b.min_y, b.max_x, b.max_y), (2, 1, 4, 5));
    let (pixels, width, height) = trim_transparent_pixels(&source, 6, 7, 1);
    assert_eq!((width, height), (3, 5));
    assert_eq!(pixels.len(), 3 * 5 * 4);
    for y in 0..5 {
        for x in 0..3 {
            let dst = (y * 3 + x) * 4;
            let src = ((1 + y) * 6 + (2 + x)) * 4;
            assert_eq!(&pixels[dst..dst + 4], &source[src..src + 4]);
        }
    }
}

#[test]
fn bounding_box_is_absent_without_visible_pixels() {
    let source = raster(4, 4, transparent);
    assert!(find_bounding_box(&source, 4, 4, 0).is_none());
}

#[test]
fn bounding_box_of_a_corner_pixel() {
    let mut source = raster(4, 3, transparent);
    source[3] = 5;
    let b = find_bounding_box(&source, 4, 3, 1).unwrap();
    assert_eq!((b.min_x, b.min_y, b.max_x, b.max_y), (0, 0, 0, 0));
    let last = source.len() - 1;
    source[last] = 5;
    let b = find_bounding_box(&source, 4, 3, 1).unwrap();
    assert_eq!((b.min_x, b.min_y, b.max_x, b.max_y), (0, 0, 3, 2));
}

#[test]
fn crop_copies_the_rows_of_the_box() {
    let source = raster(4, 4, opaque);
    let b = BoundingBox { min_x: 1, min_y: 2, max_x: 3, max_y: 3 };
    let pixels = crop_region(&source, 4, 4, b);
    assert_eq!(
        pixels,
        vec![
            1, 2, 21, 255, 2, 2, 22, 255, 3, 2, 23, 255, 1, 3, 31, 255, 2, 3, 32, 255, 3, 3, 33,
            255
        ]
    );
}

#[test]
fn trimming_twice_changes_nothing_more() {
    let source = raster(6, 7, scattered);
    let (once, width, height) = trim_transparent_pixels(&source, 6, 7, 1);
    let (twice, width_again, height_again) = trim_transparent_pixels(&once, width, height, 1);
    assert_eq!((width_again, height_again), (width, height));
    assert_eq!(twice, once);
    let b = find_bounding_box(&once, width, height, 1).unwrap();
    assert_eq!((b.min_x, b.min_y, b.max_x, b.max_y), (0, 0, width - 1, height - 1));
}

#[test]
fn image_is_built_only_from_a_buffer_of_matching_length() {
    let image = RasterImage::new(2, 3, vec![7; 24]).unwrap();
    assert_eq!((image.width, image.height), (2, 3));
    assert_eq!(image.pixels, vec![7; 24]);
    assert!(RasterImage::new(2, 3, vec![7; 23]).is_none());
    assert!(RasterImage::new(2, 3, vec![7; 25]).is_none());
    assert!(RasterImage::new(usize::MAX, 2, Vec::new()).is_none());
    assert!(RasterImage::new(usize::MAX / 2, 2, Vec::new()).is_none());
    assert!(RasterImage::new(0, 9, Vec::new()).is_some());
}

#[test]
fn image_trim_matches_the_buffer_trim() {
    let source = raster(4, 4, framed);
    let image = RasterImage::new(4, 4, source.clone()).unwrap();
    let trimmed = image.trim(1);
    let (pixels, width, height) = trim_transparent_pixels(&source, 4, 4, 1);
    assert_eq!((trimmed.width, trimmed.height), (width, height));
    assert_eq!(trimmed.pixels, pixels);
}

#[test]
fn image_without_visible_pixels_is_returned_as_it_is() {
    let source = raster(4, 2, transparent);
    let image = RasterImage::new(4, 2, source.clone()).unwrap();
    let trimmed = image.trim(0);
    assert_eq!((trimmed.width, trimmed.height), (4, 2));
    assert_eq!(trimmed.pixels, source);
}
