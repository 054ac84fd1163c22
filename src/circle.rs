use vstd::prelude::*;

verus! {

/// A detected circle: center, radius in pixels, and the vote count of the
/// accumulator cell that produced it.
#[derive(Clone, Copy, PartialEq, Eq, Debug, Structural)]
pub struct Circle {
    pub x: u32,
    pub y: u32,
    pub radius: u32,
    pub votes: u32,
}

/// The radii `r, r + step, r + 2 * step, ...` that lie below `r_max`.
pub open spec fn radii_from(r: int, r_max: int, step: int) -> Seq<u32>
    decreases (if r < r_max { r_max - r } else { 0 }),
{
    if step <= 0 || r >= r_max {
        Seq::empty()
    } else {
        seq![r as u32] + radii_from(r + step, r_max, step)
    }
}

/// Circle templates keyed by radius: `templates[k]` is the list of `(dx, dy)`
/// offsets approximating the circle of radius `radii[k]` about the origin.
pub struct TemplateCache {
    pub r_min: u32,
    pub r_max: u32,
    pub radius_step: u32,
    pub radii: Vec<u32>,
    pub templates: Vec<Vec<(i32, i32)>>,
}

/// The first index from `i` on at which `radii` holds `r`, if any.
pub open spec fn radius_index(radii: Seq<u32>, r: u32, i: int) -> Option<int>
    decreases radii.len() - i,
{
    if i >= radii.len() || i < 0 {
        None
    } else if radii[i] == r {
        Some(i)
    } else {
        radius_index(radii, r, i + 1)
    }
}

impl TemplateCache {
    /// The template cached for radius `r`, if any.
    pub open spec fn template_for(&self, r: u32) -> Option<Seq<(i32, i32)>> {
        match radius_index(self.radii@, r, 0) {
            Some(k) => Some(self.templates@[k]@),
            None => None,
        }
    }

    /// The radii are the sampled ones, ascending, each with a non-empty
    /// template.
    pub open spec fn wf(&self) -> bool {
        &&& self.radius_step > 0
        &&& self.radii@ == radii_from(self.r_min as int, self.r_max as int, self.radius_step as int)
        &&& self.templates@.len() == self.radii@.len()
        &&& forall|k: int| 0 <= k < self.templates@.len() ==> #[trigger] self.templates@[k]@.len() > 0
    }

    /// The template of `radius`, if that radius is cached.
    pub fn get(&self, radius: u32) -> (t: Option<&Vec<(i32, i32)>>)
        requires
            self.wf(),
        ensures
            t matches Some(v) ==> self.template_for(radius) == Some(v@),
            t is None ==> self.template_for(radius) is None,
    {
        let mut k: usize = 0;
        while k < self.radii.len()
            invariant
                self.wf(),
                k <= self.radii@.len(),
                radius_index(self.radii@, radius, 0) == radius_index(self.radii@, radius, k as int),
            decreases self.radii@.len() - k,
        {
            if self.radii[k] == radius {
                return Some(&self.templates[k]);
            }
            k = k + 1;
        }
        None
    }
}

/// Builds the template cache for radii `r_min, r_min + radius_step, ...`
/// below `r_max`, taking each radius's template from `sample`.
pub fn precompute_circle_points<F: Fn(u32) -> Vec<(i32, i32)>>(
    r_min: u32,
    r_max: u32,
    radius_step: u32,
    sample: F,
) -> (cache: TemplateCache)
    requires
        radius_step > 0,
        forall|r: u32| sample.requires((r,)),
        forall|r: u32, t: Vec<(i32, i32)>| #[trigger] sample.ensures((r,), t) ==> t@.len() > 0,
    ensures
        cache.wf(),
        cache.r_min == r_min,
        cache.r_max == r_max,
        cache.radius_step == radius_step,
        forall|k: int|
            0 <= k < cache.radii@.len() ==> sample.ensures(
                (cache.radii@[k],),
                #[trigger] cache.templates@[k],
            ),
{
    let mut radii: Vec<u32> = Vec::new();
    let mut templates: Vec<Vec<(i32, i32)>> = Vec::new();
    let mut r: u64 = r_min as u64;
    while r < r_max as u64
        invariant
            radius_step > 0,
            r_min <= r,
            r < r_max ==> r <= u32::MAX,
            radii@ + radii_from(r as int, r_max as int, radius_step as int) == radii_from(
                r_min as int,
                r_max as int,
                radius_step as int,
            ),
            templates@.len() == radii@.len(),
            forall|r: u32| sample.requires((r,)),
            forall|r: u32, t: Vec<(i32, i32)>| #[trigger] sample.ensures((r,), t) ==> t@.len() > 0,
            forall|k: int|
                0 <= k < templates@.len() ==> sample.ensures(
                    (radii@[k],),
                    #[trigger] templates@[k],
                ),
        decreases (if r < r_max { r_max - r } else { 0 }),
    {
        let t = sample(r as u32);
        assert(radii@.push(r as u32) + radii_from(r + radius_step, r_max as int, radius_step as int)
            =~= radii@ + radii_from(r as int, r_max as int, radius_step as int));
        radii.push(r as u32);
        templates.push(t);
        r = r + radius_step as u64;
    }
    assert(radii@ =~= radii_from(r_min as int, r_max as int, radius_step as int));
    TemplateCache { r_min, r_max, radius_step, radii, templates }
}

/// The cache depends on `(r_min, r_max, radius_step)` and the sampler alone:
/// two well-formed caches built for the same three values hold the same
/// radii, and, with a sampler whose result is determined by the radius,
/// the same templates.
pub proof fn lemma_cache_pure<F: Fn(u32) -> Vec<(i32, i32)>>(
    a: TemplateCache,
    b: TemplateCache,
    sample: F,
)
    requires
        a.wf(),
        b.wf(),
        a.r_min == b.r_min,
        a.r_max == b.r_max,
        a.radius_step == b.radius_step,
        forall|k: int|
            0 <= k < a.radii@.len() ==> sample.ensures((a.radii@[k],), #[trigger] a.templates@[k]),
        forall|k: int|
            0 <= k < b.radii@.len() ==> sample.ensures((b.radii@[k],), #[trigger] b.templates@[k]),
        forall|r: u32, t1: Vec<(i32, i32)>, t2: Vec<(i32, i32)>|
            sample.ensures((r,), t1) && sample.ensures((r,), t2) ==> t1@ == t2@,
    ensures
        a.radii@ == b.radii@,
        forall|k: int| 0 <= k < a.templates@.len() ==> (#[trigger] a.templates@[k])@ == b.templates@[k]@,
{
    assert forall|k: int| 0 <= k < a.templates@.len() implies (#[trigger] a.templates@[k])@
        == b.templates@[k]@ by {
        assert(sample.ensures((a.radii@[k],), a.templates@[k]));
        assert(sample.ensures((b.radii@[k],), b.templates@[k]));
    }
}

} // verus!
