use vstd::prelude::*;
use crate::circle::Circle;
use crate::raster::{lemma_pixel_coords, MAX_PIXELS};

verus! {

/// Vote counts of shape (R, H, W): `slices[k][y * width + x]` counts the
/// votes for a circle of the `k`-th radius centered at `(x, y)`.
pub struct Accumulator {
    pub height: usize,
    pub width: usize,
    pub slices: Vec<Vec<u32>>,
}

impl Accumulator {
    /// The vote counts, slice by slice.
    pub open spec fn cells(&self) -> Seq<Seq<u32>> {
        self.slices@.map_values(|v: Vec<u32>| v@)
    }

    pub open spec fn wf(&self) -> bool {
        &&& self.height * self.width <= MAX_PIXELS
        &&& forall|k: int|
            0 <= k < self.slices@.len() ==> (#[trigger] self.slices@[k])@.len() == self.height
                * self.width
    }

    /// An accumulator of `radii` slices of `height` by `width` zero cells.
    pub fn zeros(radii: usize, height: usize, width: usize) -> (acc: Accumulator)
        requires
            height * width <= MAX_PIXELS,
        ensures
            acc.wf(),
            acc.height == height,
            acc.width == width,
            acc.slices@.len() == radii,
            forall|k: int, c: int|
                0 <= k < radii && 0 <= c < height * width ==> #[trigger] acc.slices@[k]@[c]
                    == 0u32,
    {
        let mut slices: Vec<Vec<u32>> = Vec::new();
        let mut k: usize = 0;
        while k < radii
            invariant
                k <= radii,
                height * width <= MAX_PIXELS,
                slices@.len() == k,
                forall|j: int| 0 <= j < k ==> (#[trigger] slices@[j])@.len() == height * width,
                forall|j: int, c: int|
                    0 <= j < k && 0 <= c < height * width ==> #[trigger] slices@[j]@[c] == 0u32,
            decreases radii - k,
        {
            let cells: usize = height * width;
            slices.push(vec![0u32; cells]);
            k = k + 1;
        }
        Accumulator { height, width, slices }
    }
}

/// The largest of `s[0..i]`, 0 when there is none.
pub open spec fn seq_max(s: Seq<u32>, i: int) -> nat
    decreases i,
{
    if i <= 0 {
        0
    } else {
        let m = seq_max(s, i - 1);
        if s[i - 1] > m {
            s[i - 1] as nat
        } else {
            m
        }
    }
}

/// The largest cell of the first `k` slices, 0 when there is none.
pub open spec fn slices_max(slices: Seq<Seq<u32>>, k: int) -> nat
    decreases k,
{
    if k <= 0 {
        0
    } else {
        let m = slices_max(slices, k - 1);
        let s = seq_max(slices[k - 1], slices[k - 1].len() as int);
        if s > m {
            s
        } else {
            m
        }
    }
}

/// A cell passes when its votes exceed both `vote_thresh` and half the
/// largest vote count.
pub open spec fn passes(votes: int, vote_thresh: int, max_votes: int) -> bool {
    votes > vote_thresh && 2 * votes > max_votes
}

/// The passing cells among the first `i` of one slice, as circles.
pub open spec fn slice_candidates(
    cells: Seq<u32>,
    width: int,
    radius: u32,
    vote_thresh: int,
    max_votes: int,
    i: int,
) -> Seq<Circle>
    decreases i,
{
    if i <= 0 {
        Seq::empty()
    } else {
        let prev = slice_candidates(cells, width, radius, vote_thresh, max_votes, i - 1);
        let v = cells[i - 1];
        if passes(v as int, vote_thresh, max_votes) {
            prev.push(
                Circle {
                    x: ((i - 1) % width) as u32,
                    y: ((i - 1) / width) as u32,
                    radius,
                    votes: v,
                },
            )
        } else {
            prev
        }
    }
}

/// The candidates of the first `k` slices, slice by slice, each in raster
/// order.
pub open spec fn all_candidates(
    slices: Seq<Seq<u32>>,
    radii: Seq<u32>,
    width: int,
    vote_thresh: int,
    max_votes: int,
    k: int,
) -> Seq<Circle>
    decreases k,
{
    if k <= 0 {
        Seq::empty()
    } else {
        all_candidates(slices, radii, width, vote_thresh, max_votes, k - 1) + slice_candidates(
            slices[k - 1],
            width,
            radii[k - 1],
            vote_thresh,
            max_votes,
            slices[k - 1].len() as int,
        )
    }
}

/// The first index from `i` on whose votes are below `votes`.
pub open spec fn insert_pos(s: Seq<Circle>, votes: u32, i: int) -> int
    decreases s.len() - i,
{
    if i >= s.len() {
        s.len() as int
    } else if s[i].votes < votes {
        i
    } else {
        insert_pos(s, votes, i + 1)
    }
}

/// Sorted by descending votes, keeping the input order among equal votes:
/// each element goes after every earlier one with at least its votes.
pub open spec fn sort_desc(s: Seq<Circle>) -> Seq<Circle>
    decreases s.len(),
{
    if s.len() == 0 {
        s
    } else {
        let sorted = sort_desc(s.drop_last());
        sorted.insert(insert_pos(sorted, s.last().votes, 0), s.last())
    }
}

/// `c` duplicates `k` when the squared distance of their centers is below
/// the square of their mean radius.
pub open spec fn overlaps(c: Circle, k: Circle) -> bool {
    4 * ((c.x - k.x) * (c.x - k.x) + (c.y - k.y) * (c.y - k.y)) < (c.radius + k.radius) * (
    c.radius + k.radius)
}

pub open spec fn overlaps_any(kept: Seq<Circle>, c: Circle, i: int) -> bool
    decreases i,
{
    if i <= 0 {
        false
    } else {
        overlaps(c, kept[i - 1]) || overlaps_any(kept, c, i - 1)
    }
}

/// Greedy suppression over the first `i` candidates: each is kept unless it
/// duplicates one already kept.
pub open spec fn suppress(s: Seq<Circle>, i: int) -> Seq<Circle>
    decreases i,
{
    if i <= 0 {
        Seq::empty()
    } else {
        let kept = suppress(s, i - 1);
        if overlaps_any(kept, s[i - 1], kept.len() as int) {
            kept
        } else {
            kept.push(s[i - 1])
        }
    }
}

/// The detections of vote counts laid out `width` cells to a row: the
/// passing cells, sorted by descending votes, with overlaps suppressed.
pub open spec fn peaks_of(cells: Seq<Seq<u32>>, width: int, radii: Seq<u32>, vote_thresh: u32) -> Seq<
    Circle,
> {
    let m = slices_max(cells, cells.len() as int);
    let sorted = sort_desc(
        all_candidates(cells, radii, width, vote_thresh as int, m as int, cells.len() as int),
    );
    suppress(sorted, sorted.len() as int)
}

fn max_votes(acc: &Accumulator) -> (m: u32)
    ensures
        m == slices_max(acc.cells(), acc.cells().len() as int),
{
    let mut m: u32 = 0;
    let mut k: usize = 0;
    while k < acc.slices.len()
        invariant
            k <= acc.slices@.len(),
            m == slices_max(acc.cells(), k as int),
        decreases acc.slices@.len() - k,
    {
        let cells = &acc.slices[k];
        assert(acc.cells()[k as int] == cells@);
        let mut best: u32 = 0;
        let mut i: usize = 0;
        while i < cells.len()
            invariant
                i <= cells@.len(),
                best == seq_max(cells@, i as int),
            decreases cells@.len() - i,
        {
            if cells[i] > best {
                best = cells[i];
            }
            i = i + 1;
        }
        if best > m {
            m = best;
        }
        k = k + 1;
    }
    m
}

fn candidates(acc: &Accumulator, radii: &Vec<u32>, vote_thresh: u32, max_votes: u32) -> (c: Vec<
    Circle,
>)
    requires
        acc.wf(),
        radii@.len() == acc.slices@.len(),
    ensures
        c@ == all_candidates(
            acc.cells(),
            radii@,
            acc.width as int,
            vote_thresh as int,
            max_votes as int,
            acc.cells().len() as int,
        ),
{
    let mut out: Vec<Circle> = Vec::new();
    let mut k: usize = 0;
    while k < acc.slices.len()
        invariant
            acc.wf(),
            radii@.len() == acc.slices@.len(),
            k <= acc.slices@.len(),
            out@ == all_candidates(
                acc.cells(),
                radii@,
                acc.width as int,
                vote_thresh as int,
                max_votes as int,
                k as int,
            ),
        decreases acc.slices@.len() - k,
    {
        let cells = &acc.slices[k];
        let radius = radii[k];
        assert(acc.cells()[k as int] == cells@);
        let ghost base = out@;
        let mut i: usize = 0;
        while i < cells.len()
            invariant
                acc.wf(),
                k < acc.slices@.len(),
                *cells == acc.slices@[k as int],
                i <= cells@.len(),
                out@ == base + slice_candidates(
                    cells@,
                    acc.width as int,
                    radius,
                    vote_thresh as int,
                    max_votes as int,
                    i as int,
                ),
            decreases cells@.len() - i,
        {
            let v = cells[i];
            if v > vote_thresh && (v as u64) * 2 > max_votes as u64 {
                proof {
                    assert(acc.width * acc.height == acc.height * acc.width) by (nonlinear_arith);
                    lemma_pixel_coords(i as int, acc.width as int, acc.height as int);
                }
                let c = Circle {
                    x: (i % acc.width) as u32,
                    y: (i / acc.width) as u32,
                    radius,
                    votes: v,
                };
                out.push(c);
            }
            i = i + 1;
        }
        k = k + 1;
    }
    out
}

fn find_insert_pos(sorted: &Vec<Circle>, votes: u32) -> (p: usize)
    ensures
        p == insert_pos(sorted@, votes, 0),
        p <= sorted@.len(),
{
    let mut i: usize = 0;
    while i < sorted.len() && sorted[i].votes >= votes
        invariant
            i <= sorted@.len(),
            insert_pos(sorted@, votes, 0) == insert_pos(sorted@, votes, i as int),
        decreases sorted@.len() - i,
    {
        i = i + 1;
    }
    i
}

/// Sorts circles by descending votes; circles with equal votes keep their
/// order.
fn sort_by_votes(cands: &Vec<Circle>) -> (sorted: Vec<Circle>)
    ensures
        sorted@ == sort_desc(cands@),
{
    let n = cands.len();
    let mut sorted: Vec<Circle> = Vec::new();
    let mut i: usize = 0;
    while i < n
        invariant
            i <= n,
            n == cands@.len(),
            sorted@ == sort_desc(cands@.subrange(0, i as int)),
        decreases n - i,
    {
        let c = cands[i];
        let pos = find_insert_pos(&sorted, c.votes);
        assert(cands@.subrange(0, i + 1).drop_last() =~= cands@.subrange(0, i as int));
        sorted.insert(pos, c);
        i = i + 1;
    }
    assert(cands@.subrange(0, n as int) =~= cands@);
    sorted
}

fn overlaps_exec(c: &Circle, k: &Circle) -> (r: bool)
    ensures
        r == overlaps(*c, *k),
{
    let dx: i128 = c.x as i128 - k.x as i128;
    let dy: i128 = c.y as i128 - k.y as i128;
    let rs: i128 = c.radius as i128 + k.radius as i128;
    proof {
        assert(dx * dx <= 0x1_0000_0000 * 0x1_0000_0000) by (nonlinear_arith)
            requires
                -0x1_0000_0000 <= dx <= 0x1_0000_0000,
        ;
        assert(dy * dy <= 0x1_0000_0000 * 0x1_0000_0000) by (nonlinear_arith)
            requires
                -0x1_0000_0000 <= dy <= 0x1_0000_0000,
        ;
        assert(0 <= dx * dx && 0 <= dy * dy) by (nonlinear_arith);
        assert(rs * rs <= 0x2_0000_0000 * 0x2_0000_0000) by (nonlinear_arith)
            requires
                0 <= rs <= 0x2_0000_0000,
        ;
    }
    4 * (dx * dx + dy * dy) < rs * rs
}

fn suppress_overlaps(sorted: &Vec<Circle>) -> (kept: Vec<Circle>)
    ensures
        kept@ == suppress(sorted@, sorted@.len() as int),
{
    let n = sorted.len();
    let mut kept: Vec<Circle> = Vec::new();
    let mut i: usize = 0;
    while i < n
        invariant
            i <= n,
            n == sorted@.len(),
            kept@ == suppress(sorted@, i as int),
        decreases n - i,
    {
        let c = sorted[i];
        let mut dup = false;
        let mut j: usize = 0;
        while j < kept.len()
            invariant
                j <= kept@.len(),
                c == sorted@[i as int],
                dup == overlaps_any(kept@, c, j as int),
            decreases kept@.len() - j,
        {
            if !dup && overlaps_exec(&c, &kept[j]) {
                dup = true;
            }
            j = j + 1;
        }
        if !dup {
            kept.push(c);
        }
        i = i + 1;
    }
    kept
}

/// Extracts the circles of an accumulator: every cell whose votes exceed
/// `max(vote_thresh, max_votes / 2)` becomes a candidate with the radius of
/// its slice; candidates are ranked by descending votes (ties keep slice
/// and raster order) and each is dropped when it duplicates one kept before.
pub fn max_find(acc: &Accumulator, radii: &Vec<u32>, vote_thresh: u32) -> (circles: Vec<Circle>)
    requires
        acc.wf(),
        radii@.len() == acc.slices@.len(),
    ensures
        circles@ == peaks_of(acc.cells(), acc.width as int, radii@, vote_thresh),
{
    let m = max_votes(acc);
    let cands = candidates(acc, radii, vote_thresh, m);
    let sorted = sort_by_votes(&cands);
    suppress_overlaps(&sorted)
}

/// `c` is the circle of a cell: its radius is that of some slice `k`, its
/// center a cell of that slice, and its votes the count in that cell.
pub open spec fn from_cell(c: Circle, cells: Seq<Seq<u32>>, width: int, radii: Seq<u32>) -> bool {
    exists|k: int|
        0 <= k < cells.len() && c.radius == radii[k] && c.x < width && 0 <= c.y * width + c.x
            < cells[k].len() && c.votes == #[trigger] cells[k][c.y * width + c.x]
}

proof fn lemma_slice_candidates_from_cell(
    cells: Seq<Seq<u32>>,
    width: int,
    radii: Seq<u32>,
    k: int,
    vote_thresh: int,
    max_votes: int,
    i: int,
)
    requires
        width > 0,
        0 <= k < cells.len(),
        k < radii.len(),
        i <= cells[k].len() <= MAX_PIXELS,
    ensures
        forall|j: int|
            0 <= j < slice_candidates(cells[k], width, radii[k], vote_thresh, max_votes, i).len()
                ==> from_cell(
                #[trigger] slice_candidates(cells[k], width, radii[k], vote_thresh, max_votes, i)[j],
                cells,
                width,
                radii,
            ),
    decreases i,
{
    if i > 0 {
        lemma_slice_candidates_from_cell(cells, width, radii, k, vote_thresh, max_votes, i - 1);
        let s = slice_candidates(cells[k], width, radii[k], vote_thresh, max_votes, i);
        let prev = slice_candidates(cells[k], width, radii[k], vote_thresh, max_votes, i - 1);
        if s.len() > prev.len() {
            let c = s[s.len() - 1];
            vstd::arithmetic::div_mod::lemma_fundamental_div_mod(i - 1, width);
            vstd::arithmetic::div_mod::lemma_mod_bound(i - 1, width);
            vstd::arithmetic::div_mod::lemma_div_pos_is_pos(i - 1, width);
            vstd::arithmetic::div_mod::lemma_div_is_ordered_by_denominator(i - 1, 1, width);
            assert(c.y as int == (i - 1) / width);
            assert(c.x as int == (i - 1) % width);
            assert(c.y * width + c.x == i - 1) by (nonlinear_arith)
                requires
                    i - 1 == width * ((i - 1) / width) + (i - 1) % width,
                    c.y as int == (i - 1) / width,
                    c.x as int == (i - 1) % width,
            ;
            assert(from_cell(c, cells, width, radii));
        }
        assert forall|j: int| 0 <= j < s.len() implies from_cell(#[trigger] s[j], cells, width, radii) by {
            if j < prev.len() {
                assert(s[j] == prev[j]);
            }
        }
    }
}

proof fn lemma_all_candidates_from_cell(
    cells: Seq<Seq<u32>>,
    width: int,
    radii: Seq<u32>,
    vote_thresh: int,
    max_votes: int,
    k: int,
)
    requires
        width > 0,
        k <= cells.len(),
        radii.len() == cells.len(),
        forall|j: int| 0 <= j < cells.len() ==> (#[trigger] cells[j]).len() <= MAX_PIXELS,
    ensures
        forall|j: int|
            0 <= j < all_candidates(cells, radii, width, vote_thresh, max_votes, k).len()
                ==> from_cell(
                #[trigger] all_candidates(cells, radii, width, vote_thresh, max_votes, k)[j],
                cells,
                width,
                radii,
            ),
    decreases k,
{
    if k > 0 {
        lemma_all_candidates_from_cell(cells, width, radii, vote_thresh, max_votes, k - 1);
        lemma_slice_candidates_from_cell(
            cells,
            width,
            radii,
            k - 1,
            vote_thresh,
            max_votes,
            cells[k - 1].len() as int,
        );
        let a = all_candidates(cells, radii, width, vote_thresh, max_votes, k - 1);
        let b = slice_candidates(
            cells[k - 1],
            width,
            radii[k - 1],
            vote_thresh,
            max_votes,
            cells[k - 1].len() as int,
        );
        assert forall|j: int| 0 <= j < (a + b).len() implies from_cell(
            #[trigger] (a + b)[j],
            cells,
            width,
            radii,
        ) by {
            if j >= a.len() {
                assert((a + b)[j] == b[j - a.len()]);
            }
        }
    }
}

proof fn lemma_sort_keeps(s: Seq<Circle>, p: spec_fn(Circle) -> bool)
    requires
        forall|i: int| 0 <= i < s.len() ==> p(#[trigger] s[i]),
    ensures
        sort_desc(s).len() == s.len(),
        forall|i: int| 0 <= i < sort_desc(s).len() ==> p(#[trigger] sort_desc(s)[i]),
    decreases s.len(),
{
    if s.len() > 0 {
        let rest = s.drop_last();
        lemma_sort_keeps(rest, p);
        lemma_insert_pos_bound(sort_desc(rest), s.last().votes, 0);
    }
}

proof fn lemma_insert_pos_bound(s: Seq<Circle>, votes: u32, i: int)
    requires
        0 <= i,
    ensures
        i <= s.len() ==> i <= insert_pos(s, votes, i) <= s.len(),
        insert_pos(s, votes, i) <= s.len() || i > s.len(),
    decreases s.len() - i,
{
    if i < s.len() {
        lemma_insert_pos_bound(s, votes, i + 1);
    }
}

proof fn lemma_suppress_keeps(s: Seq<Circle>, i: int, p: spec_fn(Circle) -> bool)
    requires
        i <= s.len(),
        forall|j: int| 0 <= j < s.len() ==> p(#[trigger] s[j]),
    ensures
        forall|j: int| 0 <= j < suppress(s, i).len() ==> p(#[trigger] suppress(s, i)[j]),
    decreases i,
{
    if i > 0 {
        lemma_suppress_keeps(s, i - 1, p);
        let kept = suppress(s, i - 1);
        assert(p(s[i - 1]));
        assert forall|j: int| 0 <= j < kept.push(s[i - 1]).len() implies p(
            #[trigger] kept.push(s[i - 1])[j],
        ) by {
            if j < kept.len() {
                assert(p(kept[j]));
            }
        }
    }
}

/// Every detection is the circle of an accumulator cell: its radius is a
/// cached radius `radii[k]` and its votes the count of cell
/// `(k, y, x)`.
pub proof fn lemma_peaks_from_cells(
    cells: Seq<Seq<u32>>,
    width: int,
    radii: Seq<u32>,
    vote_thresh: u32,
)
    requires
        width > 0,
        radii.len() == cells.len(),
        forall|j: int| 0 <= j < cells.len() ==> (#[trigger] cells[j]).len() <= MAX_PIXELS,
    ensures
        forall|i: int|
            0 <= i < peaks_of(cells, width, radii, vote_thresh).len() ==> from_cell(
                #[trigger] peaks_of(cells, width, radii, vote_thresh)[i],
                cells,
                width,
                radii,
            ),
{
    let m = slices_max(cells, cells.len() as int);
    let all = all_candidates(cells, radii, width, vote_thresh as int, m as int, cells.len() as int);
    let p = |c: Circle| from_cell(c, cells, width, radii);
    lemma_all_candidates_from_cell(cells, width, radii, vote_thresh as int, m as int, cells.len() as int);
    lemma_sort_keeps(all, p);
    let sorted = sort_desc(all);
    lemma_suppress_keeps(sorted, sorted.len() as int, p);
}

proof fn lemma_overlaps_symmetric(a: Circle, b: Circle)
    ensures
        overlaps(a, b) == overlaps(b, a),
{
    assert((a.x - b.x) * (a.x - b.x) == (b.x - a.x) * (b.x - a.x)) by (nonlinear_arith);
    assert((a.y - b.y) * (a.y - b.y) == (b.y - a.y) * (b.y - a.y)) by (nonlinear_arith);
}

proof fn lemma_overlaps_any_none(kept: Seq<Circle>, c: Circle, i: int)
    requires
        !overlaps_any(kept, c, i),
    ensures
        forall|j: int| 0 <= j < i ==> !overlaps(c, #[trigger] kept[j]),
    decreases i,
{
    if i > 0 {
        lemma_overlaps_any_none(kept, c, i - 1);
    }
}

/// No two kept circles overlap: for distinct kept `a` and `b`,
/// `4 * ((a.x - b.x)^2 + (a.y - b.y)^2) >= (a.radius + b.radius)^2`.
pub proof fn lemma_suppress_separated(s: Seq<Circle>, i: int)
    requires
        i <= s.len(),
    ensures
        forall|a: int, b: int|
            0 <= a < suppress(s, i).len() && 0 <= b < suppress(s, i).len() && a != b ==> !overlaps(
                #[trigger] suppress(s, i)[a],
                #[trigger] suppress(s, i)[b],
            ),
    decreases i,
{
    if i > 0 {
        lemma_suppress_separated(s, i - 1);
        let kept = suppress(s, i - 1);
        let c = s[i - 1];
        if !overlaps_any(kept, c, kept.len() as int) {
            lemma_overlaps_any_none(kept, c, kept.len() as int);
            let now = kept.push(c);
            assert forall|a: int, b: int|
                0 <= a < now.len() && 0 <= b < now.len() && a != b implies !overlaps(
                #[trigger] now[a],
                #[trigger] now[b],
            ) by {
                if a == kept.len() {
                    assert(!overlaps(c, kept[b]));
                } else if b == kept.len() {
                    assert(!overlaps(c, kept[a]));
                    lemma_overlaps_symmetric(c, kept[a]);
                } else {
                    assert(now[a] == kept[a] && now[b] == kept[b]);
                }
            }
        }
    }
}

/// The detections of any accumulator are pairwise separated.
pub proof fn lemma_peaks_separated(
    cells: Seq<Seq<u32>>,
    width: int,
    radii: Seq<u32>,
    vote_thresh: u32,
)
    ensures
        forall|a: int, b: int|
            0 <= a < peaks_of(cells, width, radii, vote_thresh).len() && 0 <= b < peaks_of(
                cells,
                width,
                radii,
                vote_thresh,
            ).len() && a != b ==> !overlaps(
                #[trigger] peaks_of(cells, width, radii, vote_thresh)[a],
                #[trigger] peaks_of(cells, width, radii, vote_thresh)[b],
            ),
{
    let m = slices_max(cells, cells.len() as int);
    let sorted = sort_desc(
        all_candidates(cells, radii, width, vote_thresh as int, m as int, cells.len() as int),
    );
    lemma_suppress_separated(sorted, sorted.len() as int);
}

proof fn lemma_zero_slice_no_candidates(
    cells: Seq<u32>,
    width: int,
    radius: u32,
    vote_thresh: int,
    max_votes: int,
    i: int,
)
    requires
        vote_thresh >= 0,
        i <= cells.len(),
        forall|c: int| 0 <= c < cells.len() ==> cells[c] == 0u32,
    ensures
        slice_candidates(cells, width, radius, vote_thresh, max_votes, i).len() == 0,
    decreases i,
{
    if i > 0 {
        lemma_zero_slice_no_candidates(cells, width, radius, vote_thresh, max_votes, i - 1);
    }
}

proof fn lemma_zero_cells_no_candidates(
    cells: Seq<Seq<u32>>,
    radii: Seq<u32>,
    width: int,
    vote_thresh: int,
    max_votes: int,
    k: int,
)
    requires
        vote_thresh >= 0,
        k <= cells.len(),
        forall|j: int, c: int| 0 <= j < cells.len() && 0 <= c < cells[j].len() ==> #[trigger] cells[j][c] == 0u32,
    ensures
        all_candidates(cells, radii, width, vote_thresh, max_votes, k).len() == 0,
    decreases k,
{
    if k > 0 {
        lemma_zero_cells_no_candidates(cells, radii, width, vote_thresh, max_votes, k - 1);
        let last = cells[k - 1];
        assert forall|c: int| 0 <= c < last.len() implies #[trigger] last[c] == 0u32 by {
            assert(cells[k - 1][c] == 0u32);
        }
        lemma_zero_slice_no_candidates(
            cells[k - 1],
            width,
            radii[k - 1],
            vote_thresh,
            max_votes,
            cells[k - 1].len() as int,
        );
    }
}

/// An accumulator of zeros yields no detection.
pub proof fn lemma_zero_cells_no_peaks(
    cells: Seq<Seq<u32>>,
    width: int,
    radii: Seq<u32>,
    vote_thresh: u32,
)
    requires
        forall|j: int, c: int| 0 <= j < cells.len() && 0 <= c < cells[j].len() ==> #[trigger] cells[j][c] == 0u32,
    ensures
        peaks_of(cells, width, radii, vote_thresh).len() == 0,
{
    let m = slices_max(cells, cells.len() as int);
    lemma_zero_cells_no_candidates(cells, radii, width, vote_thresh as int, m as int, cells.len() as int);
    let all = all_candidates(cells, radii, width, vote_thresh as int, m as int, cells.len() as int);
    assert(sort_desc(all) == all);
}

} // verus!
