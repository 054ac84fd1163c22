use rusty_vision::circle::{precompute_circle_points, Circle, TemplateCache};
use rusty_vision::hough::{edge_pixels, hough_transform, vote, vote_slice};
use rusty_vision::peaks::{max_find, Accumulator};
use rusty_vision::raster::GrayImage;

fn circle_points(radius: u32) -> Vec<(i32, i32)> {
    let r = radius as f64;
    let n = ((2.0 * std::f64::consts::PI * r / 3.0).round() as usize).max(60);
    (0..n)
        .map(|i| {
            let theta = 2.0 * std::f64::consts::PI * i as f64 / n as f64;
            ((r * theta.cos()).round() as i32, (r * theta.sin()).round() as i32)
        })
        .collect()
}

fn draw(img: &mut GrayImage, cx: i32, cy: i32, radius: u32) {
    for (dx, dy) in circle_points(radius) {
        let (x, y) = (cx + dx, cy + dy);
        if x >= 0 && y >= 0 && (x as usize) < img.width && (y as usize) < img.height {
            img.data[y as usize * img.width + x as usize] = 255;
        }
    }
}

fn cache(r_min: u32, r_max: u32, step: u32) -> TemplateCache {
    precompute_circle_points(r_min, r_max, step, circle_points)
}

#[test]
fn single_synthetic_circle() {
    let mut img = GrayImage::filled(100, 100, 0);
    draw(&mut img, 50, 50, 15);
    let circles = hough_transform(&img, &cache(10, 20, 1), 20);
    assert_eq!(circles.len(), 1);
    let c = circles[0];
    assert_eq!(c.radius, 15);
    assert!((c.x as i32 - 50).abs() <= 1);
    assert!((c.y as i32 - 50).abs() <= 1);
}

#[test]
fn two_overlapping_circles() {
    let mut img = GrayImage::filled(100, 100, 0);
    draw(&mut img, 50, 50, 15);
    draw(&mut img, 58, 50, 15);
    let circles = hough_transform(&img, &cache(10, 20, 1), 20);
    assert_eq!(circles.len(), 1);
    assert_eq!(circles[0].radius, 15);
}

#[test]
fn empty_edge_image() {
    let img = GrayImage::filled(30, 20, 0);
    let c = cache(5, 9, 1);
    let acc = vote(&img, &c);
    assert_eq!(acc.slices.len(), 4);
    assert!(acc.slices.iter().all(|s| s.len() == 600 && s.iter().all(|&v| v == 0)));
    assert!(hough_transform(&img, &c, 0).is_empty());
}

#[test]
fn edges_sorted_in_raster_order() {
    let mut img = GrayImage::filled(4, 3, 0);
    img.data[5] = 255;
    img.data[2] = 255;
    img.data[11] = 255;
    img.data[6] = 200;
    assert_eq!(edge_pixels(&img), vec![(0, 2), (1, 1), (2, 3)]);
}

#[test]
fn slice_votes_count_pairs() {
    // edges at (y, x) = (2, 3) and (2, 5); offsets (1, 0) and (-1, 0)
    let edges = vec![(2usize, 3usize), (2, 5)];
    let template = vec![(1, 0), (-1, 0)];
    let mut slice = vec![0u32; 6 * 4];
    vote_slice(&edges, 4, 6, &template, &mut slice);
    // center (x=4, y=2) gets one vote from each edge
    assert_eq!(slice[2 * 6 + 4], 2);
    assert_eq!(slice[2 * 6 + 2], 1);
    assert_eq!(slice[2 * 6 + 5], 0);
    // the vote for x = 6 falls outside the slice
    assert_eq!(slice.iter().map(|&v| v as usize).sum::<usize>(), 3);
}

#[test]
fn votes_respect_row_clipping() {
    // an offset with a negative dy pushes centers below the last row
    let edges = vec![(0usize, 1usize), (2, 1)];
    let template = vec![(0, -1)];
    let mut slice = vec![0u32; 3 * 3];
    vote_slice(&edges, 3, 3, &template, &mut slice);
    assert_eq!(slice[1 * 3 + 1], 1);
    assert_eq!(slice.iter().map(|&v| v as usize).sum::<usize>(), 1);
}

#[test]
fn votes_bounded_by_pairs() {
    let mut img = GrayImage::filled(40, 40, 0);
    draw(&mut img, 20, 20, 8);
    draw(&mut img, 12, 25, 6);
    let c = cache(4, 12, 2);
    let edges = edge_pixels(&img).len();
    let acc = vote(&img, &c);
    for (k, slice) in acc.slices.iter().enumerate() {
        let bound = c.templates[k].len() * edges;
        assert!(slice.iter().all(|&v| (v as usize) <= bound));
    }
}

fn acc_of(width: usize, height: usize, slices: Vec<Vec<u32>>) -> Accumulator {
    Accumulator { height, width, slices }
}

#[test]
fn threshold_uses_half_of_max() {
    let mut s = vec![0u32; 100];
    s[0] = 40;
    s[99] = 20; // not above 40 / 2
    s[55] = 21;
    let circles = max_find(&acc_of(10, 10, vec![s]), &vec![3], 5);
    assert_eq!(
        circles,
        vec![
            Circle { x: 0, y: 0, radius: 3, votes: 40 },
            Circle { x: 5, y: 5, radius: 3, votes: 21 },
        ]
    );
}

#[test]
fn threshold_uses_vote_floor() {
    let mut s = vec![0u32; 100];
    s[0] = 10;
    s[99] = 9;
    let circles = max_find(&acc_of(10, 10, vec![s]), &vec![3], 10);
    assert!(circles.is_empty());
}

#[test]
fn suppression_keeps_best_and_far() {
    let mut a = vec![0u32; 400];
    let mut b = vec![0u32; 400];
    a[5 * 20 + 5] = 50; // (5, 5) r=4
    a[5 * 20 + 7] = 45; // (7, 5) r=4: distance 2 < 4 -> dropped
    b[5 * 20 + 14] = 48; // (14, 5) r=6: distance 9 >= 5 -> kept
    let circles = max_find(&acc_of(20, 20, vec![a, b]), &vec![4, 6], 1);
    assert_eq!(
        circles,
        vec![
            Circle { x: 5, y: 5, radius: 4, votes: 50 },
            Circle { x: 14, y: 5, radius: 6, votes: 48 },
        ]
    );
    for i in 0..circles.len() {
        for j in 0..circles.len() {
            if i != j {
                let dx = circles[i].x as i64 - circles[j].x as i64;
                let dy = circles[i].y as i64 - circles[j].y as i64;
                let rs = (circles[i].radius + circles[j].radius) as i64;
                assert!(4 * (dx * dx + dy * dy) >= rs * rs);
            }
        }
    }
}

#[test]
fn ties_keep_scan_order() {
    let mut s = vec![0u32; 100];
    s[90] = 30;
    s[3] = 30;
    let circles = max_find(&acc_of(10, 10, vec![s]), &vec![2], 1);
    assert_eq!(circles[0], Circle { x: 3, y: 0, radius: 2, votes: 30 });
    assert_eq!(circles[1], Circle { x: 0, y: 9, radius: 2, votes: 30 });
}

#[test]
fn detections_come_from_cells() {
    let mut img = GrayImage::filled(60, 60, 0);
    draw(&mut img, 30, 30, 10);
    let c = cache(6, 14, 2);
    let acc = vote(&img, &c);
    let circles = max_find(&acc, &c.radii, 5);
    assert!(!circles.is_empty());
    for circle in &circles {
        let k = c.radii.iter().position(|&r| r == circle.radius).unwrap();
        assert_eq!(acc.slices[k][circle.y as usize * 60 + circle.x as usize], circle.votes);
    }
}

#[test]
fn empty_accumulator_gives_no_circles() {
    let acc = Accumulator::zeros(3, 4, 5);
    assert_eq!(acc.slices.len(), 3);
    assert!(acc.slices.iter().all(|s| s.len() == 20 && s.iter().all(|&v| v == 0)));
    assert!(max_find(&acc, &vec![1, 2, 3], 0).is_empty());
    let none = Accumulator::zeros(0, 4, 5);
    assert!(max_find(&none, &vec![], 0).is_empty());
}

#[test]
fn slice_votes_add_to_earlier_counts() {
    let edges = vec![(1usize, 1usize)];
    let template = vec![(0, 0), (1, 0)];
    let mut slice = vec![5u32; 3 * 3];
    vote_slice(&edges, 3, 3, &template, &mut slice);
    assert_eq!(slice[1 * 3 + 1], 6);
    assert_eq!(slice[1 * 3 + 0], 6);
    assert_eq!(slice[0], 5);
    assert_eq!(slice.iter().map(|&v| v as usize).sum::<usize>(), 9 * 5 + 2);
}
