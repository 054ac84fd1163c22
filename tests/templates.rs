use rusty_vision::circle::precompute_circle_points;
use rusty_vision::config::{apply_snapshot, Config, SnapshotAction};

fn ring(radius: u32) -> Vec<(i32, i32)> {
    vec![(radius as i32, 0), (0, radius as i32), (-(radius as i32), 0), (0, -(radius as i32))]
}

#[test]
fn radius_parameter_change() {
    let mut n = Config::default().detection;
    n.min_radius = 10;
    n.max_radius = 20;
    n.radius_step = 1;
    let mut next = n;
    next.min_radius = 8;
    next.max_radius = 24;
    next.radius_step = 2;
    assert_eq!(apply_snapshot(&n, &next), SnapshotAction::Adopt { rebuild_templates: true });
    let cache = precompute_circle_points(next.min_radius, next.max_radius, next.radius_step, ring);
    assert_eq!(cache.radii, vec![8, 10, 12, 14, 16, 18, 20, 22]);
    assert_eq!(cache.templates.len(), 8);
    assert_eq!(cache.get(12), Some(&ring(12)));
    assert_eq!(cache.get(13), None);
}

#[test]
fn cache_is_pure_in_parameters() {
    let a = precompute_circle_points(3, 17, 4, ring);
    let b = precompute_circle_points(3, 17, 4, ring);
    assert_eq!(a.radii, vec![3, 7, 11, 15]);
    assert_eq!(a.radii, b.radii);
    assert_eq!(a.templates, b.templates);
}

#[test]
fn empty_radius_range() {
    let a = precompute_circle_points(10, 10, 1, ring);
    assert!(a.radii.is_empty());
    let b = precompute_circle_points(10, 11, 5, ring);
    assert_eq!(b.radii, vec![10]);
}
