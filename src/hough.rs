use vstd::prelude::*;
use crate::circle::{Circle, TemplateCache};
use crate::peaks::{lemma_zero_cells_no_peaks, max_find, peaks_of, Accumulator};
use crate::raster::{lemma_index_in_bounds, lemma_pixel_coords, GrayImage, MAX_PIXELS};

verus! {

/// The `(y, x)` positions of the 255 pixels among the first `k` pixels of
/// `img`, in raster order.
pub open spec fn edges_before(img: GrayImage, k: int) -> Seq<(usize, usize)>
    decreases k,
{
    if k <= 0 {
        Seq::empty()
    } else {
        let prev = edges_before(img, k - 1);
        if img.data@[k - 1] == 255u8 {
            prev.push((((k - 1) / (img.width as int)) as usize, ((k - 1) % (img.width as int)) as usize))
        } else {
            prev
        }
    }
}

/// The edge pixels of an image: its 255 pixels, as `(y, x)`, in raster order.
pub open spec fn edge_list(img: GrayImage) -> Seq<(usize, usize)> {
    edges_before(img, img.data@.len() as int)
}

/// Edges lie inside a `height` by `width` image and their rows never
/// decrease along the list.
pub open spec fn edges_ok(edges: Seq<(usize, usize)>, height: int, width: int) -> bool {
    &&& forall|i: int| 0 <= i < edges.len() ==> (#[trigger] edges[i]).0 < height && edges[i].1 < width
    &&& forall|i: int, j: int| 0 <= i <= j < edges.len() ==> (#[trigger] edges[i]).0 <= (#[trigger] edges[j]).0
}

/// Whether the edge `e` votes, through offset `o`, for the center `(cy, cx)`.
pub open spec fn hits(e: (usize, usize), o: (i32, i32), cy: int, cx: int) -> bool {
    e.0 - o.1 == cy && e.1 - o.0 == cx
}

/// How many of `edges[lo..hi]` vote through offset `o` for `(cy, cx)`.
pub open spec fn hit_count(edges: Seq<(usize, usize)>, o: (i32, i32), cy: int, cx: int, lo: int, hi: int) -> nat
    decreases hi - lo,
{
    if hi <= lo {
        0
    } else {
        hit_count(edges, o, cy, cx, lo, hi - 1) + if hits(edges[hi - 1], o, cy, cx) {
            1nat
        } else {
            0nat
        }
    }
}

/// The votes for center `(cy, cx)` from all edges through the first `j`
/// offsets of `template`: the number of (edge, offset) pairs with
/// `cx == edge_x - dx` and `cy == edge_y - dy`.
pub open spec fn votes_upto(edges: Seq<(usize, usize)>, template: Seq<(i32, i32)>, cy: int, cx: int, j: int) -> nat
    decreases j,
{
    if j <= 0 {
        0
    } else {
        votes_upto(edges, template, cy, cx, j - 1) + hit_count(edges, template[j - 1], cy, cx, 0, edges.len() as int)
    }
}

pub open spec fn votes(edges: Seq<(usize, usize)>, template: Seq<(i32, i32)>, cy: int, cx: int) -> nat {
    votes_upto(edges, template, cy, cx, template.len() as int)
}

proof fn lemma_hit_count_split(edges: Seq<(usize, usize)>, o: (i32, i32), cy: int, cx: int, lo: int, mid: int, hi: int)
    requires
        lo <= mid <= hi,
    ensures
        hit_count(edges, o, cy, cx, lo, hi) == hit_count(edges, o, cy, cx, lo, mid) + hit_count(edges, o, cy, cx, mid, hi),
    decreases hi - mid,
{
    if hi > mid {
        lemma_hit_count_split(edges, o, cy, cx, lo, mid, hi - 1);
    }
}

proof fn lemma_hit_count_none(edges: Seq<(usize, usize)>, o: (i32, i32), cy: int, cx: int, lo: int, hi: int)
    requires
        forall|i: int| lo <= i < hi ==> !hits(#[trigger] edges[i], o, cy, cx),
    ensures
        hit_count(edges, o, cy, cx, lo, hi) == 0,
    decreases hi - lo,
{
    if hi > lo {
        lemma_hit_count_none(edges, o, cy, cx, lo, hi - 1);
    }
}

proof fn lemma_hit_count_bound(edges: Seq<(usize, usize)>, o: (i32, i32), cy: int, cx: int, lo: int, hi: int)
    requires
        lo <= hi,
    ensures
        hit_count(edges, o, cy, cx, lo, hi) <= hi - lo,
    decreases hi - lo,
{
    if hi > lo {
        lemma_hit_count_bound(edges, o, cy, cx, lo, hi - 1);
    }
}

/// No cell collects more votes than there are (edge, offset) pairs.
pub proof fn lemma_votes_bounded(edges: Seq<(usize, usize)>, template: Seq<(i32, i32)>, cy: int, cx: int, j: int)
    requires
        0 <= j <= template.len(),
    ensures
        votes_upto(edges, template, cy, cx, j) <= j * edges.len(),
    decreases j,
{
    if j > 0 {
        lemma_votes_bounded(edges, template, cy, cx, j - 1);
        lemma_hit_count_bound(edges, template[j - 1], cy, cx, 0, edges.len() as int);
        assert(j * edges.len() == (j - 1) * edges.len() + edges.len()) by (nonlinear_arith);
    }
}

/// Collects the 255 pixels of `img` as `(y, x)`, sorted by row and column.
pub fn edge_pixels(img: &GrayImage) -> (edges: Vec<(usize, usize)>)
    requires
        img.wf(),
    ensures
        edges@ == edge_list(*img),
        edges_ok(edges@, img.height as int, img.width as int),
        edges@.len() <= img.data@.len(),
{
    let n = img.data.len();
    let width = img.width;
    let mut edges: Vec<(usize, usize)> = Vec::new();
    let mut k: usize = 0;
    while k < n
        invariant
            k <= n,
            n == img.data@.len(),
            width == img.width,
            img.wf(),
            edges@ == edges_before(*img, k as int),
            edges@.len() <= k,
            edges_ok(edges@, img.height as int, img.width as int),
            forall|i: int| 0 <= i < edges@.len() ==> (#[trigger] edges@[i]).0 * width + edges@[i].1 < k,
        decreases n - k,
    {
        if img.data[k] == 255 {
            proof {
                lemma_pixel_coords(k as int, width as int, img.height as int);
            }
            let y: usize = k / width;
            let x: usize = k % width;
            proof {
                assert forall|i: int| 0 <= i < edges@.len() implies (#[trigger] edges@[i]).0 <= y by {
                    let e = edges@[i];
                    if e.0 > y {
                        assert(e.0 * width + e.1 >= (y + 1) * width) by (nonlinear_arith)
                            requires
                                e.0 > y,
                                width > 0,
                        ;
                        assert((y + 1) * width == y * width + width) by (nonlinear_arith);
                    }
                }
            }
            edges.push((y, x));
        }
        k = k + 1;
    }
    edges
}

/// The first index of `edges` whose row is at least `min_y`.
fn partition_point(edges: &Vec<(usize, usize)>, min_y: usize) -> (i: usize)
    requires
        forall|a: int, b: int| 0 <= a <= b < edges@.len() ==> (#[trigger] edges@[a]).0 <= (#[trigger] edges@[b]).0,
    ensures
        i <= edges@.len(),
        forall|a: int| 0 <= a < i ==> (#[trigger] edges@[a]).0 < min_y,
        forall|a: int| i <= a < edges@.len() ==> (#[trigger] edges@[a]).0 >= min_y,
{
    let mut lo: usize = 0;
    let mut hi: usize = edges.len();
    while lo < hi
        invariant
            lo <= hi <= edges@.len(),
            forall|a: int, b: int| 0 <= a <= b < edges@.len() ==> (#[trigger] edges@[a]).0 <= (#[trigger] edges@[b]).0,
            forall|a: int| 0 <= a < lo ==> (#[trigger] edges@[a]).0 < min_y,
            forall|a: int| hi <= a < edges@.len() ==> (#[trigger] edges@[a]).0 >= min_y,
        decreases hi - lo,
    {
        let mid = lo + (hi - lo) / 2;
        if edges[mid].0 < min_y {
            lo = mid + 1;
        } else {
            hi = mid;
        }
    }
    lo
}

/// The votes of cell `c` (row `c / width`, column `c % width`) of a slice.
pub open spec fn cell_votes(edges: Seq<(usize, usize)>, template: Seq<(i32, i32)>, width: int, c: int) -> nat {
    votes(edges, template, c / width, c % width)
}

/// After the edges of `[start, i)` have been walked, every cell holds its
/// earlier votes plus the hits among them.
proof fn lemma_walk_step(
    edges: Seq<(usize, usize)>,
    o: (i32, i32),
    width: int,
    ncells: int,
    c: int,
    idx: int,
    start: int,
    i: int,
    incremented: bool,
)
    requires
        width > 0,
        0 <= c < ncells,
        start <= i < edges.len(),
        incremented ==> 0 <= idx && (edges[i].1 - o.0) == idx % width && (edges[i].0 - o.1) == idx / width,
        !incremented ==> !(0 <= edges[i].1 - o.0 < width),
    ensures
        hit_count(edges, o, c / width, c % width, start, i + 1) == hit_count(edges, o, c / width, c % width, start, i) + if incremented && c == idx {
            1nat
        } else {
            0nat
        },
{
    vstd::arithmetic::div_mod::lemma_fundamental_div_mod(c, width);
    assert(0 <= c % width < width) by {
        vstd::arithmetic::div_mod::lemma_mod_bound(c, width);
    }
    if incremented {
        vstd::arithmetic::div_mod::lemma_fundamental_div_mod(idx, width);
        if hits(edges[i], o, c / width, c % width) {
            assert(c / width == idx / width && c % width == idx % width);
            assert(c == idx);
        }
    }
}

/// Votes one radius slice: for every offset `(dx, dy)` of `template` and
/// every edge `(y, x)` with `0 <= y - dy < height` and `0 <= x - dx < width`,
/// adds one to cell `(y - dy) * width + (x - dx)`. The edges of the rows
/// that can reach the slice are found by binary search on the sorted list.
pub fn vote_slice(
    edges: &Vec<(usize, usize)>,
    height: usize,
    width: usize,
    template: &Vec<(i32, i32)>,
    slice: &mut Vec<u32>,
)
    requires
        edges_ok(edges@, height as int, width as int),
        height <= MAX_PIXELS,
        width <= MAX_PIXELS,
        old(slice)@.len() == height * width,
        forall|c: int|
            0 <= c < old(slice)@.len() ==> #[trigger] old(slice)@[c] + template@.len()
                * edges@.len() <= u32::MAX,
    ensures
        final(slice)@.len() == height * width,
        forall|c: int|
            0 <= c < final(slice)@.len() ==> #[trigger] final(slice)@[c] == old(slice)@[c]
                + cell_votes(edges@, template@, width as int, c),
{
    let ghost ncells: int = height * width;
    let ghost start_slice = slice@;
    let n = edges.len();
    let h = height as i64;
    let w = width as i64;
    let mut j: usize = 0;
    while j < template.len()
        invariant
            j <= template@.len(),
            n == edges@.len(),
            h == height,
            w == width,
            ncells == height * width,
            edges_ok(edges@, height as int, width as int),
            height <= MAX_PIXELS,
            width <= MAX_PIXELS,
            slice@.len() == ncells,
            start_slice.len() == ncells,
            forall|c: int|
                0 <= c < ncells ==> #[trigger] start_slice[c] + template@.len() * edges@.len()
                    <= u32::MAX,
            forall|c: int|
                0 <= c < ncells ==> #[trigger] slice@[c] == start_slice[c] + votes_upto(
                    edges@,
                    template@,
                    c / (width as int),
                    c % (width as int),
                    j as int,
                ),
        decreases template@.len() - j,
    {
        let (dx, dy) = template[j];
        let ghost o = (dx, dy);
        let min_y: i64 = if dy > 0 {
            dy as i64
        } else {
            0
        };
        let max_y: i64 = if dy < 0 {
            h + dy as i64
        } else {
            h
        };
        let ghost before = slice@;
        if min_y < max_y {
            let start = partition_point(edges, min_y as usize);
            let mut i: usize = start;
            while i < n && (edges[i].0 as i64) < max_y
                invariant
                    start <= i <= n,
                    n == edges@.len(),
                    h == height,
                    w == width,
                    ncells == height * width,
                    edges_ok(edges@, height as int, width as int),
                    height <= MAX_PIXELS,
                    width <= MAX_PIXELS,
                    j < template@.len(),
                    template@[j as int] == o,
                    o == (dx, dy),
                    min_y == (if dy > 0 { dy as int } else { 0 }),
                    max_y == (if dy < 0 { h + dy } else { h as int }),
                    min_y < max_y,
                    start_slice.len() == ncells,
                    forall|c: int|
                        0 <= c < ncells ==> #[trigger] start_slice[c] + template@.len()
                            * edges@.len() <= u32::MAX,
                    forall|a: int| start <= a < edges@.len() ==> (#[trigger] edges@[a]).0 >= min_y,
                    slice@.len() == ncells,
                    forall|c: int|
                        0 <= c < ncells ==> #[trigger] slice@[c] == before[c] + hit_count(
                            edges@,
                            o,
                            c / (width as int),
                            c % (width as int),
                            start as int,
                            i as int,
                        ),
                    forall|c: int|
                        0 <= c < ncells ==> #[trigger] before[c] == start_slice[c] + votes_upto(
                            edges@,
                            template@,
                            c / (width as int),
                            c % (width as int),
                            j as int,
                        ),
                decreases n - i,
            {
                let (ey, ex) = edges[i];
                let total = slice.len();
                let cx: i64 = ex as i64 - dx as i64;
                let ghost old_slice = slice@;
                if cx >= 0 && cx < w {
                    let cy: i64 = ey as i64 - dy as i64;
                    proof {
                        lemma_index_in_bounds(cx as int, cy as int, width as int, height as int);
                        assert(width * height == height * width) by (nonlinear_arith);
                    }
                    let idx: usize = (cy as usize) * width + (cx as usize);
                    proof {
                        vstd::arithmetic::div_mod::lemma_fundamental_div_mod_converse(
                            idx as int,
                            width as int,
                            cy as int,
                            cx as int,
                        );
                        let c = idx as int;
                        assert(start_slice[c] + template@.len() * edges@.len() <= u32::MAX);
                        lemma_votes_bounded(edges@, template@, c / (width as int), c % (width as int), j as int);
                        lemma_hit_count_bound(edges@, o, c / (width as int), c % (width as int), start as int, i as int);
                        assert((j + 1) * n == j * n + n) by (nonlinear_arith);
                        assert((j + 1) * n <= template@.len() * n) by (nonlinear_arith)
                            requires
                                j + 1 <= template@.len(),
                                n >= 0,
                        ;
                    }
                    let v = slice[idx];
                    slice.set(idx, v + 1);
                    proof {
                        assert forall|c: int| 0 <= c < ncells implies #[trigger] slice@[c] == before[c] + hit_count(
                            edges@,
                            o,
                            c / (width as int),
                            c % (width as int),
                            start as int,
                            (i + 1) as int,
                        ) by {
                            lemma_walk_step(edges@, o, width as int, ncells, c, idx as int, start as int, i as int, true);
                        }
                    }
                } else {
                    proof {
                        assert forall|c: int| 0 <= c < ncells implies #[trigger] slice@[c] == before[c] + hit_count(
                            edges@,
                            o,
                            c / (width as int),
                            c % (width as int),
                            start as int,
                            (i + 1) as int,
                        ) by {
                            lemma_walk_step(edges@, o, width as int, ncells, c, 0, start as int, i as int, false);
                        }
                    }
                }
                i = i + 1;
            }
            proof {
                assert forall|c: int| 0 <= c < ncells implies #[trigger] slice@[c] == start_slice[c] + votes_upto(
                    edges@,
                    template@,
                    c / (width as int),
                    c % (width as int),
                    (j + 1) as int,
                ) by {
                    let cy = c / (width as int);
                    let cx = c % (width as int);
                    lemma_pixel_coords(c, width as int, height as int);
                    lemma_hit_count_split(edges@, o, cy, cx, 0, start as int, n as int);
                    lemma_hit_count_split(edges@, o, cy, cx, start as int, i as int, n as int);
                    assert forall|a: int| 0 <= a < start implies !hits(#[trigger] edges@[a], o, cy, cx) by {}
                    lemma_hit_count_none(edges@, o, cy, cx, 0, start as int);
                    if i < n {
                        assert forall|a: int| i <= a < n implies !hits(#[trigger] edges@[a], o, cy, cx) by {
                            assert(edges@[i as int].0 <= edges@[a].0);
                        }
                    }
                    lemma_hit_count_none(edges@, o, cy, cx, i as int, n as int);
                }
            }
        } else {
            proof {
                assert forall|c: int| 0 <= c < ncells implies #[trigger] slice@[c] == start_slice[c] + votes_upto(
                    edges@,
                    template@,
                    c / (width as int),
                    c % (width as int),
                    (j + 1) as int,
                ) by {
                    let cy = c / (width as int);
                    let cx = c % (width as int);
                    lemma_pixel_coords(c, width as int, height as int);
                    assert forall|a: int| 0 <= a < n implies !hits(#[trigger] edges@[a], o, cy, cx) by {}
                    lemma_hit_count_none(edges@, o, cy, cx, 0, n as int);
                }
            }
        }
        j = j + 1;
    }
}

/// The accumulator of an edge image: slice `k` holds, for each cell, the
/// votes of the image's edges through the `k`-th template.
pub open spec fn votes_of(img: GrayImage, cache: TemplateCache) -> Seq<Seq<u32>> {
    Seq::new(
        cache.templates@.len(),
        |k: int|
            Seq::new(
                (img.height * img.width) as nat,
                |c: int| cell_votes(edge_list(img), cache.templates@[k]@, img.width as int, c) as u32,
            ),
    )
}

/// Whether every template of `cache`, times the pixel count of `img`, fits
/// a `u32` vote counter.
pub open spec fn votes_fit(img: GrayImage, cache: TemplateCache) -> bool {
    forall|k: int|
        0 <= k < cache.templates@.len() ==> (#[trigger] cache.templates@[k])@.len() * (img.height
            * img.width) <= u32::MAX
}

/// Fills the accumulator of an edge image: one zeroed slice per cached
/// radius, voted by `vote_slice`.
pub fn vote(edge_img: &GrayImage, cache: &TemplateCache) -> (acc: Accumulator)
    requires
        edge_img.wf(),
        cache.wf(),
        edge_img.height * edge_img.width <= MAX_PIXELS,
        votes_fit(*edge_img, *cache),
    ensures
        acc.wf(),
        acc.height == edge_img.height,
        acc.width == edge_img.width,
        acc.slices@.len() == cache.templates@.len(),
        acc.cells() == votes_of(*edge_img, *cache),
{
    let height = edge_img.height;
    let width = edge_img.width;
    proof {
        assert(height * width == width * height) by (nonlinear_arith);
        if height > 0 {
            assert(width <= height * width) by (nonlinear_arith)
                requires
                    height > 0,
                    width >= 0,
            ;
        }
        if width > 0 {
            assert(height <= height * width) by (nonlinear_arith)
                requires
                    width > 0,
                    height >= 0,
            ;
        }
    }
    let edges = edge_pixels(edge_img);
    let cells: usize = height * width;
    let mut slices: Vec<Vec<u32>> = Vec::new();
    let mut k: usize = 0;
    while k < cache.templates.len()
        invariant
            k <= cache.templates@.len(),
            cells == height * width,
            height == edge_img.height,
            width == edge_img.width,
            height * width <= MAX_PIXELS,
            height * width == edge_img.data@.len(),
            height > 0 ==> width <= MAX_PIXELS,
            width > 0 ==> height <= MAX_PIXELS,
            edges@ == edge_list(*edge_img),
            edges_ok(edges@, height as int, width as int),
            edges@.len() <= edge_img.data@.len(),
            votes_fit(*edge_img, *cache),
            slices@.len() == k,
            forall|j: int| 0 <= j < k ==> (#[trigger] slices@[j])@.len() == height * width,
            forall|j: int|
                0 <= j < k ==> (#[trigger] slices@[j])@ == votes_of(*edge_img, *cache)[j],
        decreases cache.templates@.len() - k,
    {
        let template = &cache.templates[k];
        let mut slice: Vec<u32> = vec![0u32; cells];
        proof {
            let t = template@.len();
            assert(t * edges@.len() <= t * (height * width)) by (nonlinear_arith)
                requires
                    edges@.len() <= height * width,
                    t >= 0,
            ;
        }
        if height == 0 || width == 0 {
            proof {
                assert(height * width == 0) by (nonlinear_arith)
                    requires
                        height == 0 || width == 0,
                ;
            }
        }
        let ghost zeroed = slice@;
        if height > 0 && width > 0 {
            vote_slice(&edges, height, width, template, &mut slice);
        }
        proof {
            assert(slice@ =~= votes_of(*edge_img, *cache)[k as int]);
        }
        slices.push(slice);
        k = k + 1;
    }
    let acc = Accumulator { height, width, slices };
    assert(acc.cells() =~= votes_of(*edge_img, *cache));
    acc
}

/// Finds circles in an edge image: votes every cached radius, then keeps
/// the cells above `max(vote_thresh, max_votes / 2)`, ranked by votes, with
/// overlapping candidates suppressed.
pub fn hough_transform(edge_img: &GrayImage, cache: &TemplateCache, vote_thresh: u32) -> (circles:
    Vec<Circle>)
    requires
        edge_img.wf(),
        cache.wf(),
        edge_img.height * edge_img.width <= MAX_PIXELS,
        votes_fit(*edge_img, *cache),
    ensures
        circles@ == peaks_of(
            votes_of(*edge_img, *cache),
            edge_img.width as int,
            cache.radii@,
            vote_thresh,
        ),
{
    let acc = vote(edge_img, cache);
    max_find(&acc, &cache.radii, vote_thresh)
}

proof fn lemma_edges_before_len(img: GrayImage, k: int)
    requires
        0 <= k,
    ensures
        edges_before(img, k).len() <= k,
    decreases k,
{
    if k > 0 {
        lemma_edges_before_len(img, k - 1);
    }
}

/// No cell of slice `k` holds more votes than there are (edge, offset)
/// pairs for it, `|T_k| * |edges|`; so no cell exceeds `|edges|` times the
/// largest template.
pub proof fn lemma_cell_votes_bounded(img: GrayImage, cache: TemplateCache, k: int, c: int)
    requires
        img.wf(),
        votes_fit(img, cache),
        0 <= k < cache.templates@.len(),
        0 <= c < img.height * img.width,
    ensures
        votes_of(img, cache)[k][c] <= cache.templates@[k]@.len() * edge_list(img).len(),
{
    let t = cache.templates@[k]@;
    let e = edge_list(img);
    let w = img.width as int;
    lemma_votes_bounded(e, t, c / w, c % w, t.len() as int);
    lemma_edges_before_len(img, img.data@.len() as int);
    assert(img.height * img.width == img.width * img.height) by (nonlinear_arith);
    assert(t.len() * e.len() <= t.len() * (img.height * img.width)) by (nonlinear_arith)
        requires
            e.len() <= img.height * img.width,
    ;
}

proof fn lemma_no_edges_zero_votes(
    edges: Seq<(usize, usize)>,
    template: Seq<(i32, i32)>,
    cy: int,
    cx: int,
    j: int,
)
    requires
        edges.len() == 0,
    ensures
        votes_upto(edges, template, cy, cx, j) == 0,
    decreases j,
{
    if j > 0 {
        lemma_no_edges_zero_votes(edges, template, cy, cx, j - 1);
    }
}

/// An edge image without edge pixels leaves the accumulator at zero, and
/// zero votes yield no circle.
pub proof fn lemma_no_edges_no_circles(img: GrayImage, cache: TemplateCache, vote_thresh: u32)
    requires
        edge_list(img).len() == 0,
    ensures
        forall|k: int, c: int|
            0 <= k < votes_of(img, cache).len() && 0 <= c < votes_of(img, cache)[k].len()
                ==> #[trigger] votes_of(img, cache)[k][c] == 0u32,
        peaks_of(votes_of(img, cache), img.width as int, cache.radii@, vote_thresh).len() == 0,
{
    let v = votes_of(img, cache);
    assert forall|k: int, c: int| 0 <= k < v.len() && 0 <= c < v[k].len() implies #[trigger] v[k][c]
        == 0u32 by {
        let w = img.width as int;
        lemma_no_edges_zero_votes(edge_list(img), cache.templates@[k]@, c / w, c % w, cache.templates@[k]@.len() as int);
    }
    lemma_zero_cells_no_peaks(v, img.width as int, cache.radii@, vote_thresh);
}

proof fn lemma_no_edge_pixel_before(img: GrayImage, k: int)
    requires
        forall|i: int| 0 <= i < k ==> img.data@[i] != 255u8,
    ensures
        edges_before(img, k).len() == 0,
    decreases k,
{
    if k > 0 {
        lemma_no_edge_pixel_before(img, k - 1);
    }
}

/// An image without a 255 pixel has no edge pixel.
pub proof fn lemma_blank_image_no_edges(img: GrayImage)
    requires
        forall|i: int| 0 <= i < img.data@.len() ==> img.data@[i] != 255u8,
    ensures
        edge_list(img).len() == 0,
{
    lemma_no_edge_pixel_before(img, img.data@.len() as int);
}

} // verus!
