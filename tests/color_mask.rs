use rusty_vision::color::{rgb_to_hsv, ColorRange};
use rusty_vision::mask::run_color_mask;
use rusty_vision::raster::{GrayImage, RgbImage};

fn rgb(width: usize, height: usize, data: Vec<[u8; 3]>) -> RgbImage {
    RgbImage { width, height, data }
}

#[test]
fn hsv_of_primaries() {
    assert_eq!(rgb_to_hsv(255, 0, 0), (0, 255, 255));
    assert_eq!(rgb_to_hsv(0, 255, 0), (85, 255, 255));
    assert_eq!(rgb_to_hsv(0, 0, 255), (170, 255, 255));
    assert_eq!(rgb_to_hsv(128, 128, 128), (0, 0, 128));
    assert_eq!(rgb_to_hsv(0, 0, 0), (0, 0, 0));
}

#[test]
fn hsv_of_mixed_colors() {
    // yellow: h = 60 degrees -> 42.5 -> 43
    assert_eq!(rgb_to_hsv(255, 255, 0), (43, 255, 255));
    // magenta-ish red with blue above green wraps below 360 degrees
    assert_eq!(rgb_to_hsv(255, 0, 51), (247, 255, 255));
    // s = 155 / 200 * 255 = 197.6 -> 198
    assert_eq!(rgb_to_hsv(200, 100, 45).1, 198);
    assert_eq!(rgb_to_hsv(200, 100, 45).2, 200);
}

#[test]
fn in_range_is_inclusive() {
    let r = ColorRange { lower: [10, 20, 30], upper: [10, 40, 50] };
    assert!(r.in_range(10, 20, 30));
    assert!(r.in_range(10, 40, 50));
    assert!(!r.in_range(11, 30, 40));
    assert!(!r.in_range(10, 19, 40));
    assert!(!r.in_range(10, 30, 51));
}

#[test]
fn hsv_band_basic() {
    let frame = rgb(2, 2, vec![[255, 0, 0], [0, 255, 0], [0, 0, 255], [128, 128, 128]]);
    let mut mask = GrayImage::filled(2, 2, 7);
    run_color_mask(&frame, &mut mask, [0, 200, 200], [20, 255, 255]);
    assert_eq!(mask.data, vec![255, 0, 0, 0]);
}

#[test]
fn mask_is_binary_and_repeatable() {
    let mut pixels = Vec::new();
    for i in 0..64u32 {
        pixels.push([(i * 37 % 256) as u8, (i * 91 % 256) as u8, (i * 13 % 256) as u8]);
    }
    let frame = rgb(8, 8, pixels);
    let mut first = GrayImage::filled(8, 8, 0);
    let mut second = GrayImage::filled(8, 8, 99);
    run_color_mask(&frame, &mut first, [0, 50, 50], [128, 255, 255]);
    run_color_mask(&frame, &mut second, [0, 50, 50], [128, 255, 255]);
    assert!(first.data.iter().all(|&v| v == 0 || v == 255));
    assert!(first.data.iter().any(|&v| v == 255));
    assert_eq!(first.data, second.data);
}
