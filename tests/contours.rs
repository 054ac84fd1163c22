use rusty_vision::contour::{find_contours, Point};
use rusty_vision::raster::GrayImage;

fn block_mask() -> GrayImage {
    let mut mask = GrayImage::filled(5, 5, 0);
    for y in 1..4 {
        for x in 1..4 {
            mask.data[y * 5 + x] = 255;
        }
    }
    mask
}

#[test]
fn solid_block_contour() {
    let contours = find_contours(&block_mask(), 0, 0);
    // (1, 2) and (1, 3) also have a 0 west neighbor, but the trace from
    // (1, 1) already passed through them.
    assert_eq!(contours.len(), 1);
    let first = &contours[0];
    assert_eq!(first.points[0], Point::new(1, 1));
    assert_eq!(first.points.len(), 8);
    assert_eq!(first.double_area, 8);
    assert_eq!(
        first.points,
        vec![
            Point::new(1, 1),
            Point::new(1, 2),
            Point::new(1, 3),
            Point::new(2, 3),
            Point::new(3, 3),
            Point::new(3, 2),
            Point::new(3, 1),
            Point::new(2, 1),
        ]
    );
}

#[test]
fn filters_apply() {
    let mask = block_mask();
    assert_eq!(find_contours(&mask, 9, 0).len(), 0);
    assert_eq!(find_contours(&mask, 8, 8).len(), 1);
    assert_eq!(find_contours(&mask, 8, 9).len(), 0);
    for c in find_contours(&mask, 5, 3) {
        assert!(c.points.len() >= 5 && c.double_area >= 3);
    }
}

#[test]
fn all_zero_mask_has_no_contours() {
    let mask = GrayImage::filled(6, 4, 0);
    assert!(find_contours(&mask, 0, 0).is_empty());
}

#[test]
fn all_255_mask_has_no_contours() {
    let mask = GrayImage::filled(6, 4, 255);
    assert!(find_contours(&mask, 0, 0).is_empty());
}

#[test]
fn single_pixel_contour() {
    let mut mask = GrayImage::filled(4, 4, 0);
    mask.data[1 * 4 + 2] = 255;
    let contours = find_contours(&mask, 0, 0);
    assert_eq!(contours.len(), 1);
    assert_eq!(contours[0].points, vec![Point::new(2, 1)]);
    assert_eq!(contours[0].double_area, 0);
}

#[test]
fn left_border_region_is_skipped() {
    let mut mask = GrayImage::filled(4, 4, 0);
    mask.data[0] = 255;
    mask.data[1] = 255;
    assert!(find_contours(&mask, 0, 0).is_empty());
}

#[test]
fn contours_are_repeatable() {
    let mask = block_mask();
    let a = find_contours(&mask, 0, 0);
    let b = find_contours(&mask, 0, 0);
    assert_eq!(a.len(), b.len());
    for (x, y) in a.iter().zip(b.iter()) {
        assert_eq!(x.points, y.points);
        assert_eq!(x.double_area, y.double_area);
    }
}

#[test]
fn separate_blocks_each_traced_once() {
    let mut mask = GrayImage::filled(9, 5, 0);
    for y in 1..4 {
        for x in 1..3 {
            mask.data[y * 9 + x] = 255;
        }
        for x in 5..8 {
            mask.data[y * 9 + x] = 255;
        }
    }
    let contours = find_contours(&mask, 0, 0);
    assert_eq!(contours.len(), 2);
    assert_eq!(contours[0].points[0], Point::new(1, 1));
    assert_eq!(contours[1].points[0], Point::new(5, 1));
    assert_eq!(contours[1].double_area, 8);
}
