use rusty_vision::camera::CameraError;
use rusty_vision::circle::precompute_circle_points;
use rusty_vision::config::{apply_snapshot, Config, SnapshotAction};
use rusty_vision::contour::Point;
use rusty_vision::detection::{detect_circles, detect_contours, downscale};
use rusty_vision::frame::FrameError;
use rusty_vision::raster::{GrayImage, RgbImage};

#[test]
fn default_config_values() {
    let c = Config::default();
    assert_eq!(c.system.log_level, "info");
    assert!(c.system.telemetry_enabled);
    assert_eq!(c.networktables.server, "10.0.0.2");
    assert_eq!(c.networktables.identity, "vision-coprocessor");
    assert_eq!(c.networktables.publish_rate_hz, 50);
    assert_eq!(c.camera.width, 1280);
    assert_eq!(c.camera.height, 720);
    assert_eq!(c.camera.fps, 30);
    assert_eq!(c.detection.color_lower, [20, 100, 100]);
    assert_eq!(c.detection.color_upper, [30, 255, 255]);
    assert_eq!(c.detection.min_area, 100);
    assert!(c.detection.is_valid());
}

#[test]
fn snapshot_decisions() {
    let cur = Config::default().detection;
    assert_eq!(apply_snapshot(&cur, &cur), SnapshotAction::Keep);
    let mut tweak = cur;
    tweak.vote_thresh = 40;
    assert_eq!(apply_snapshot(&cur, &tweak), SnapshotAction::Adopt { rebuild_templates: false });
    let mut bad = cur;
    bad.radius_step = 0;
    assert_eq!(apply_snapshot(&cur, &bad), SnapshotAction::Reject);
    let mut reversed = cur;
    reversed.color_lower = [40, 0, 0];
    assert_eq!(apply_snapshot(&cur, &reversed), SnapshotAction::Reject);
    let mut empty = cur;
    empty.min_radius = 60;
    assert_eq!(apply_snapshot(&cur, &empty), SnapshotAction::Reject);
}

#[test]
fn parameters_scale_with_factor() {
    let mut d = Config::default().detection;
    d.min_area = 101;
    d.min_contour_length = 21;
    let p = d.scaled(2);
    assert_eq!(p.min_length, 10);
    assert_eq!(p.r_min, 5);
    assert_eq!(p.r_max, 30);
    assert_eq!(p.radius_step, 1);
    d.radius_step = 1;
    assert_eq!(d.scaled(2).radius_step, 1);
    d.radius_step = 7;
    assert_eq!(d.scaled(2).radius_step, 3);
    // area 101 / 4 = 25.25, doubled 50.5 -> 51
    assert_eq!(p.min_double_area, 51);
    assert_eq!(d.scaled(1).min_double_area, 202);
}

#[test]
fn render_contours() {
    let mut mask = GrayImage::filled(5, 5, 0);
    for y in 1..4 {
        for x in 1..4 {
            mask.data[y * 5 + x] = 255;
        }
    }
    let mut out = GrayImage::filled(5, 5, 9);
    detect_contours(&mask, &mut out, 0, 0);
    let mut expected = vec![255u8; 25];
    for i in 0..25 {
        let (x, y) = (i % 5, i / 5);
        let on_ring = (1..4).contains(&x) && (1..4).contains(&y) && !(x == 2 && y == 2);
        if !on_ring {
            expected[i] = 0;
        }
    }
    assert_eq!(out.data, expected);
}

#[test]
fn render_circles_from_blank_image() {
    let edges = GrayImage::filled(20, 20, 0);
    let cache = precompute_circle_points(3, 6, 1, |r: u32| vec![(r as i32, 0)]);
    let mut out = GrayImage::filled(20, 20, 1);
    let circles = detect_circles(&edges, &mut out, &cache, 0);
    assert!(circles.is_empty());
    assert!(out.data.iter().all(|&v| v == 0));
}

#[test]
fn render_circle_outline() {
    let mut edges = GrayImage::filled(12, 12, 0);
    let square = [(2, 0), (0, 2), (-2, 0), (0, -2)];
    for (dx, dy) in square {
        edges.data[((6 + dy) * 12 + 6 + dx) as usize] = 255;
    }
    let cache = precompute_circle_points(2, 3, 1, |_r: u32| square.to_vec());
    let mut out = GrayImage::filled(12, 12, 0);
    let circles = detect_circles(&edges, &mut out, &cache, 2);
    assert_eq!(circles.len(), 1);
    assert_eq!((circles[0].x, circles[0].y, circles[0].votes), (6, 6, 4));
    assert_eq!(out.data, edges.data);
}

#[test]
fn downscale_nearest() {
    let data: Vec<[u8; 3]> = (0..20u8).map(|i| [i, 0, 0]).collect();
    let src = RgbImage { width: 5, height: 4, data };
    let dst = downscale(&src, 2);
    assert_eq!((dst.width, dst.height), (2, 2));
    let firsts: Vec<u8> = dst.data.iter().map(|p| p[0]).collect();
    assert_eq!(firsts, vec![0, 2, 10, 12]);
}

#[test]
fn camera_error_from_frame_error() {
    let e: CameraError = FrameError::ZeroDimensions.into();
    assert!(matches!(e, CameraError::FrameError(FrameError::ZeroDimensions)));
    let _ = Point::new(0, 0);
}
