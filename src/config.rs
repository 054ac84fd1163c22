use vstd::prelude::*;

verus! {

pub struct SystemConfig {
    pub log_level: String,
    pub telemetry_enabled: bool,
}

pub struct NetworkTablesConfig {
    pub server: String,
    pub identity: String,
    pub publish_rate_hz: u32,
}

#[derive(Clone, Copy, Debug, PartialEq, Eq, Structural)]
pub struct CameraConfig {
    pub device_id: u32,
    pub width: u32,
    pub height: u32,
    pub fps: u32,
}

/// The operator-tunable detection parameters, in full-frame pixels.
#[derive(Clone, Copy, Debug)]
pub struct DetectionConfig {
    pub enabled: bool,
    /// Inclusive HSV lower bound of the color band.
    pub color_lower: [u8; 3],
    /// Inclusive HSV upper bound of the color band.
    pub color_upper: [u8; 3],
    /// Smallest polygon area of a retained contour.
    pub min_area: u32,
    /// Smallest point count of a retained contour.
    pub min_contour_length: u32,
    /// Smallest Hough radius.
    pub min_radius: u32,
    /// Exclusive upper bound of the Hough radii.
    pub max_radius: u32,
    /// Stride between sampled radii.
    pub radius_step: u32,
    /// Floor on the adaptive vote threshold.
    pub vote_thresh: u32,
}

pub struct Config {
    pub system: SystemConfig,
    pub networktables: NetworkTablesConfig,
    pub camera: CameraConfig,
    pub detection: DetectionConfig,
}

/// Two snapshots agree on every parameter.
pub open spec fn same_detection(a: DetectionConfig, b: DetectionConfig) -> bool {
    &&& a.enabled == b.enabled
    &&& a.color_lower@ == b.color_lower@
    &&& a.color_upper@ == b.color_upper@
    &&& a.min_area == b.min_area
    &&& a.min_contour_length == b.min_contour_length
    &&& a.min_radius == b.min_radius
    &&& a.max_radius == b.max_radius
    &&& a.radius_step == b.radius_step
    &&& a.vote_thresh == b.vote_thresh
}

impl PartialEq for DetectionConfig {
    fn eq(&self, other: &DetectionConfig) -> (r: bool) {
        let r = self.enabled == other.enabled && self.color_lower[0] == other.color_lower[0]
            && self.color_lower[1] == other.color_lower[1] && self.color_lower[2]
            == other.color_lower[2] && self.color_upper[0] == other.color_upper[0]
            && self.color_upper[1] == other.color_upper[1] && self.color_upper[2]
            == other.color_upper[2] && self.min_area == other.min_area && self.min_contour_length
            == other.min_contour_length && self.min_radius == other.min_radius && self.max_radius
            == other.max_radius && self.radius_step == other.radius_step && self.vote_thresh
            == other.vote_thresh;
        proof {
            if r {
                assert(self.color_lower@ =~= other.color_lower@);
                assert(self.color_upper@ =~= other.color_upper@);
            }
        }
        r
    }
}

impl vstd::std_specs::cmp::PartialEqSpecImpl for DetectionConfig {
    open spec fn obeys_eq_spec() -> bool {
        true
    }

    open spec fn eq_spec(&self, other: &DetectionConfig) -> bool {
        same_detection(*self, *other)
    }
}

/// A usable snapshot: a non-empty radius range, a positive step, and
/// color bounds that are not reversed.
pub open spec fn detection_valid(d: DetectionConfig) -> bool {
    &&& d.min_radius < d.max_radius
    &&& d.radius_step > 0
    &&& forall|c: int| 0 <= c < 3 ==> d.color_lower[c] <= d.color_upper[c]
}

/// What the driver does with a new configuration snapshot.
#[derive(Clone, Copy, Debug, PartialEq, Eq, Structural)]
pub enum SnapshotAction {
    /// The snapshot equals the current one.
    Keep,
    /// The snapshot is invalid: the current one stays, and one warning is due.
    Reject,
    /// The snapshot replaces the current one; the template cache is rebuilt
    /// first when a radius parameter changed.
    Adopt { rebuild_templates: bool },
}

/// The detection parameters at the processing resolution.
#[derive(Clone, Copy, Debug)]
pub struct FrameParams {
    pub color_lower: [u8; 3],
    pub color_upper: [u8; 3],
    /// Smallest point count of a retained contour.
    pub min_length: u32,
    /// Smallest doubled polygon area of a retained contour.
    pub min_double_area: u64,
    pub r_min: u32,
    pub r_max: u32,
    pub radius_step: u32,
    pub vote_thresh: u32,
}

impl DetectionConfig {
    /// The parameters for frames downscaled by `factor`: the radii, the
    /// radius step and the contour length divided by it (a step that would
    /// drop below one pixel stays one pixel, so that the radii can still be
    /// sampled), the area by its square (the doubled
    /// area rounded up, so that a contour passes exactly when its area is
    /// at least `min_area / factor^2`).
    pub fn scaled(&self, factor: u32) -> (p: FrameParams)
        requires
            factor > 0,
        ensures
            p.color_lower == self.color_lower,
            p.color_upper == self.color_upper,
            p.min_length == self.min_contour_length / factor,
            p.r_min == self.min_radius / factor,
            p.r_max == self.max_radius / factor,
            p.radius_step == (if self.radius_step / factor == 0 {
                1
            } else {
                self.radius_step / factor
            }),
            p.vote_thresh == self.vote_thresh,
            p.min_double_area * (factor * factor) >= 2 * self.min_area,
            (p.min_double_area - 1) * (factor * factor) < 2 * self.min_area,
    {
        proof {
            assert(1 <= factor * factor <= 0xffff_ffff * 0xffff_ffff) by (nonlinear_arith)
                requires
                    1 <= factor <= 0xffff_ffff,
            ;
        }
        let f2: u128 = (factor as u128) * (factor as u128);
        let twice: u128 = 2 * (self.min_area as u128);
        let q: u128 = (twice + f2 - 1) / f2;
        proof {
            let d = f2 as int;
            let n = twice as int;
            assert(q * d >= n && (q - 1) * d < n && q <= n) by (nonlinear_arith)
                requires
                    d >= 1,
                    n >= 0,
                    q == (n + d - 1) / d,
            ;
        }
        let min_double_area = q as u64;
        FrameParams {
            color_lower: self.color_lower,
            color_upper: self.color_upper,
            min_length: self.min_contour_length / factor,
            min_double_area,
            r_min: self.min_radius / factor,
            r_max: self.max_radius / factor,
            radius_step: if self.radius_step / factor == 0 {
                1
            } else {
                self.radius_step / factor
            },
            vote_thresh: self.vote_thresh,
        }
    }

    /// Whether the snapshot is usable.
    pub fn is_valid(&self) -> (r: bool)
        ensures
            r == detection_valid(*self),
    {
        let mut c: usize = 0;
        while c < 3
            invariant
                c <= 3,
                forall|j: int| 0 <= j < c ==> self.color_lower[j] <= self.color_upper[j],
            decreases 3 - c,
        {
            if self.color_lower[c] > self.color_upper[c] {
                return false;
            }
            c = c + 1;
        }
        self.min_radius < self.max_radius && self.radius_step > 0
    }

    /// Whether `other` samples different radii parameters.
    pub fn radii_differ(&self, other: &DetectionConfig) -> (r: bool)
        ensures
            r == (self.min_radius != other.min_radius || self.max_radius != other.max_radius
                || self.radius_step != other.radius_step),
    {
        self.min_radius != other.min_radius || self.max_radius != other.max_radius
            || self.radius_step != other.radius_step
    }
}

/// Decides what the driver does with `latest` while `current` is in use.
pub fn apply_snapshot(current: &DetectionConfig, latest: &DetectionConfig) -> (a: SnapshotAction)
    ensures
        same_detection(*latest, *current) ==> a == SnapshotAction::Keep,
        !same_detection(*latest, *current) && !detection_valid(*latest) ==> a
            == SnapshotAction::Reject,
        !same_detection(*latest, *current) && detection_valid(*latest) ==> a == (SnapshotAction::Adopt {
            rebuild_templates: latest.min_radius != current.min_radius || latest.max_radius
                != current.max_radius || latest.radius_step != current.radius_step,
        }),
{
    if *latest == *current {
        SnapshotAction::Keep
    } else if !latest.is_valid() {
        SnapshotAction::Reject
    } else {
        SnapshotAction::Adopt { rebuild_templates: latest.radii_differ(current) }
    }
}

impl Config {
    /// The built-in configuration, used when no file can be read.
    pub fn default() -> (c: Config)
        ensures
            c.system.log_level@ == "info"@,
            c.system.telemetry_enabled,
            c.networktables.server@ == "10.0.0.2"@,
            c.networktables.identity@ == "vision-coprocessor"@,
            c.networktables.publish_rate_hz == 50,
            c.camera == (CameraConfig { device_id: 0, width: 1280, height: 720, fps: 30 }),
            c.detection.enabled,
            c.detection.color_lower@ == seq![20u8, 100u8, 100u8],
            c.detection.color_upper@ == seq![30u8, 255u8, 255u8],
            c.detection.min_area == 100,
            c.detection.min_contour_length == 20,
            c.detection.min_radius == 10,
            c.detection.max_radius == 60,
            c.detection.radius_step == 2,
            c.detection.vote_thresh == 30,
            detection_valid(c.detection),
    {
        let c = Config {
            system: SystemConfig { log_level: "info".to_string(), telemetry_enabled: true },
            networktables: NetworkTablesConfig {
                server: "10.0.0.2".to_string(),
                identity: "vision-coprocessor".to_string(),
                publish_rate_hz: 50,
            },
            camera: CameraConfig { device_id: 0, width: 1280, height: 720, fps: 30 },
            detection: DetectionConfig {
                enabled: true,
                color_lower: [20, 100, 100],
                color_upper: [30, 255, 255],
                min_area: 100,
                min_contour_length: 20,
                min_radius: 10,
                max_radius: 60,
                radius_step: 2,
                vote_thresh: 30,
            },
        };
        assert(c.detection.color_lower@ =~= seq![20u8, 100u8, 100u8]);
        assert(c.detection.color_upper@ =~= seq![30u8, 255u8, 255u8]);
        assert(detection_valid(c.detection)) by {
            assert(c.detection.color_lower[0] <= c.detection.color_upper[0]);
            assert(c.detection.color_lower[1] <= c.detection.color_upper[1]);
            assert(c.detection.color_lower[2] <= c.detection.color_upper[2]);
        }
        c
    }
}

} // verus!
