use vstd::prelude::*;
use crate::raster::{lemma_index_in_bounds, lemma_pixel_coords, GrayImage, MAX_PIXELS};

verus! {

/// A pixel position, or a displacement between two positions.
#[derive(Clone, Copy, PartialEq, Eq, Debug, Structural)]
pub struct Point {
    pub x: i32,
    pub y: i32,
}

impl Point {
    pub fn new(x: i32, y: i32) -> (p: Point)
        ensures
            p.x == x,
            p.y == y,
    {
        Point { x, y }
    }
}

/// A traced boundary: its points in tracing order and twice the absolute
/// shoelace area of the polygon they form (so that the area stays exact).
pub struct Contour {
    pub points: Vec<Point>,
    pub double_area: u64,
}

/// Horizontal part of the `i`-th neighbor direction. The eight directions
/// run W, NW, N, NE, E, SE, S, SW.
pub open spec fn dir_dx(i: int) -> int {
    if i == 0 || i == 1 || i == 7 {
        -1
    } else if i == 2 || i == 6 {
        0
    } else {
        1
    }
}

/// Vertical part of the `i`-th neighbor direction (y grows downwards).
pub open spec fn dir_dy(i: int) -> int {
    if i == 0 || i == 4 {
        0
    } else if 1 <= i <= 3 {
        -1
    } else {
        1
    }
}

/// The position of a displacement in the cyclic list of directions; 0 for
/// a displacement that is not a neighbor step.
pub open spec fn dir_index(dx: int, dy: int) -> int {
    if dx == -1 && dy == 0 {
        0
    } else if dx == -1 && dy == -1 {
        1
    } else if dx == 0 && dy == -1 {
        2
    } else if dx == 1 && dy == -1 {
        3
    } else if dx == 1 && dy == 0 {
        4
    } else if dx == 1 && dy == 1 {
        5
    } else if dx == 0 && dy == 1 {
        6
    } else if dx == -1 && dy == 1 {
        7
    } else {
        0
    }
}

/// A displacement to one of the eight neighbors.
pub open spec fn is_step(dx: int, dy: int) -> bool {
    -1 <= dx <= 1 && -1 <= dy <= 1 && !(dx == 0 && dy == 0)
}

pub open spec fn shift(p: Point, i: int) -> Point {
    Point { x: (p.x + dir_dx(i)) as i32, y: (p.y + dir_dy(i)) as i32 }
}

pub open spec fn in_image(mask: GrayImage, p: Point) -> bool {
    mask.in_bounds(p.x as int, p.y as int)
}

/// A position inside the image whose mask byte is not 0.
pub open spec fn is_fg(mask: GrayImage, p: Point) -> bool {
    in_image(mask, p) && mask.at(p.x as int, p.y as int) != 0
}

/// Scanning the neighbors of `p` from direction `d + k` onwards
/// (counter-clockwise, as the list runs), the first foreground one.
pub open spec fn first_fg(mask: GrayImage, p: Point, d: int, k: int) -> Option<Point>
    decreases 8 - k,
{
    if k >= 8 {
        None
    } else if is_fg(mask, shift(p, (d + k) % 8)) {
        Some(shift(p, (d + k) % 8))
    } else {
        first_fg(mask, p, d, k + 1)
    }
}

/// Scanning the neighbors of `p` backwards from direction `d + k` down to
/// direction `d`, the first foreground one.
pub open spec fn last_fg(mask: GrayImage, p: Point, d: int, k: int) -> Option<Point>
    decreases k + 1,
{
    if k < 0 {
        None
    } else if is_fg(mask, shift(p, (d + k) % 8)) {
        Some(shift(p, (d + k) % 8))
    } else {
        last_fg(mask, p, d, k - 1)
    }
}

/// One step of the trace: from `cur`, with the list rotated so that the
/// direction towards `prev` leads, the last foreground neighbor.
pub open spec fn next_point(mask: GrayImage, prev: Point, cur: Point) -> Point {
    match last_fg(mask, cur, dir_index(prev.x - cur.x, prev.y - cur.y), 7) {
        Some(q) => q,
        None => cur,
    }
}

/// The points visited from state `(prev, cur)` until the trace returns to
/// `start` with `first` as the point after it, for at most `fuel` steps.
pub open spec fn trace_from(
    mask: GrayImage,
    start: Point,
    first: Point,
    prev: Point,
    cur: Point,
    fuel: nat,
) -> Seq<Point>
    decreases fuel,
{
    if fuel == 0 {
        Seq::empty()
    } else {
        let nxt = next_point(mask, prev, cur);
        if nxt == start && cur == first {
            seq![cur]
        } else {
            seq![cur] + trace_from(mask, start, first, cur, nxt, (fuel - 1) as nat)
        }
    }
}

/// A trace visits states `(prev, cur)` with `cur` a foreground pixel and
/// `prev` one of its eight neighbors, so one that has not closed within
/// this many steps repeats a state and never closes.
pub open spec fn trace_limit(mask: GrayImage) -> nat {
    (8 * (mask.width * mask.height)) as nat
}

/// The boundary traced from `start`: a single point when no neighbor is
/// foreground, else the closed trace that begins towards the first
/// foreground neighbor found from the west.
pub open spec fn contour_points(mask: GrayImage, start: Point) -> Seq<Point> {
    match first_fg(mask, start, 0, 0) {
        None => seq![start],
        Some(first) => trace_from(mask, start, first, first, start, trace_limit(mask)),
    }
}

pub open spec fn pixel_point(mask: GrayImage, k: int) -> Point {
    Point { x: (k % (mask.width as int)) as i32, y: (k / (mask.width as int)) as i32 }
}

/// A trace starts at a 255 pixel whose west neighbor exists and is 0.
pub open spec fn is_start(mask: GrayImage, k: int) -> bool {
    let x = k % (mask.width as int);
    let y = k / (mask.width as int);
    &&& mask.data@[k] == 255u8
    &&& x > 0
    &&& mask.data@[k - 1] == 0u8
}

/// The point at row-major index `c` of an image `width` pixels wide.
pub open spec fn cell_point(width: int, c: int) -> Point {
    Point { x: (c % width) as i32, y: (c / width) as i32 }
}

/// Whether `q` is a point of one of the first `i` contours.
pub open spec fn on_contours(cs: Seq<Seq<Point>>, q: Point, i: int) -> bool
    decreases i,
{
    if i <= 0 {
        false
    } else {
        cs[i - 1].contains(q) || on_contours(cs, q, i - 1)
    }
}

pub open spec fn cross(p: Point, q: Point) -> int {
    p.x * q.y - q.x * p.y
}

/// The first `k` terms of the shoelace sum, indices taken modulo the length.
pub open spec fn cross_sum(pts: Seq<Point>, k: int) -> int
    decreases k,
{
    if k <= 0 {
        0
    } else {
        cross_sum(pts, k - 1) + cross(pts[k - 1], pts[k % (pts.len() as int)])
    }
}

/// Twice the absolute shoelace area of the closed polygon through `pts`.
pub open spec fn double_area(pts: Seq<Point>) -> int {
    let s = cross_sum(pts, pts.len() as int);
    if s < 0 {
        -s
    } else {
        s
    }
}

pub open spec fn keeps(pts: Seq<Point>, min_length: u32, min_double_area: u64) -> bool {
    pts.len() >= min_length && double_area(pts) >= min_double_area
}

/// Every trace started among the first `k` pixels, in raster order: a
/// start pixel begins a trace unless an earlier trace already passed
/// through it, so each boundary is traced once.
pub open spec fn traces_before(mask: GrayImage, k: int) -> Seq<Seq<Point>>
    decreases k,
{
    if k <= 0 {
        Seq::empty()
    } else {
        let prev = traces_before(mask, k - 1);
        let p = pixel_point(mask, k - 1);
        if is_start(mask, k - 1) && !on_contours(prev, p, prev.len() as int) {
            prev.push(contour_points(mask, p))
        } else {
            prev
        }
    }
}

/// Pixel `k` begins a trace: it is a start pixel that no earlier trace
/// passed through.
pub open spec fn starts_trace(mask: GrayImage, k: int) -> bool {
    let prev = traces_before(mask, k);
    is_start(mask, k) && !on_contours(prev, pixel_point(mask, k), prev.len() as int)
}

/// The retained traces among the first `k` pixels, in raster order.
pub open spec fn contours_before(
    mask: GrayImage,
    min_length: u32,
    min_double_area: u64,
    k: int,
) -> Seq<Seq<Point>>
    decreases k,
{
    if k <= 0 {
        Seq::empty()
    } else {
        let prev = contours_before(mask, min_length, min_double_area, k - 1);
        let pts = contour_points(mask, pixel_point(mask, k - 1));
        if starts_trace(mask, k - 1) && keeps(pts, min_length, min_double_area) {
            prev.push(pts)
        } else {
            prev
        }
    }
}

/// All retained contours of a mask.
pub open spec fn contours_of(mask: GrayImage, min_length: u32, min_double_area: u64) -> Seq<
    Seq<Point>,
> {
    contours_before(mask, min_length, min_double_area, mask.data@.len() as int)
}

pub open spec fn mask_fits(mask: GrayImage) -> bool {
    &&& mask.wf()
    &&& mask.width <= MAX_PIXELS
    &&& mask.height <= MAX_PIXELS
    &&& mask.width * mask.height <= MAX_PIXELS
}

/// Whether an image of this size is within the tracer's limits.
pub fn mask_fits_limits(width: usize, height: usize) -> (r: bool)
    ensures
        r == (width <= MAX_PIXELS && height <= MAX_PIXELS && width * height <= MAX_PIXELS),
{
    if width > MAX_PIXELS || height > MAX_PIXELS {
        return false;
    }
    proof {
        assert(width * height <= MAX_PIXELS * MAX_PIXELS) by (nonlinear_arith)
            requires
                width <= MAX_PIXELS,
                height <= MAX_PIXELS,
        ;
    }
    (width as u64) * (height as u64) <= MAX_PIXELS as u64
}

proof fn lemma_shift_is_step(mask: GrayImage, p: Point, i: int)
    requires
        mask_fits(mask),
        in_image(mask, p),
        0 <= i < 8,
    ensures
        is_step(shift(p, i).x - p.x, shift(p, i).y - p.y),
        is_step(p.x - shift(p, i).x, p.y - shift(p, i).y),
{
}

proof fn lemma_first_fg_is_fg(mask: GrayImage, p: Point, d: int, k: int)
    requires
        mask_fits(mask),
        in_image(mask, p),
        0 <= d < 8,
        0 <= k,
    ensures
        first_fg(mask, p, d, k) matches Some(q) ==> is_fg(mask, q) && is_step(q.x - p.x, q.y - p.y),
    decreases 8 - k,
{
    if k < 8 {
        lemma_shift_is_step(mask, p, (d + k) % 8);
        lemma_first_fg_is_fg(mask, p, d, k + 1);
    }
}

proof fn lemma_last_fg_is_fg(mask: GrayImage, p: Point, d: int, k: int)
    requires
        mask_fits(mask),
        in_image(mask, p),
        0 <= d < 8,
    ensures
        last_fg(mask, p, d, k) matches Some(q) ==> is_fg(mask, q) && is_step(p.x - q.x, p.y - q.y),
    decreases k + 1,
{
    if k >= 0 {
        lemma_shift_is_step(mask, p, (d + k) % 8);
        lemma_last_fg_is_fg(mask, p, d, k - 1);
    }
}

/// The backward scan ends at direction `d` itself, so it finds a neighbor
/// whenever the one in direction `d` is foreground.
proof fn lemma_last_fg_found(mask: GrayImage, p: Point, d: int, k: int)
    requires
        0 <= d < 8,
        0 <= k,
        is_fg(mask, shift(p, d)),
    ensures
        last_fg(mask, p, d, k) is Some,
    decreases k,
{
    if k > 0 && !is_fg(mask, shift(p, (d + k) % 8)) {
        lemma_last_fg_found(mask, p, d, k - 1);
    }
}

fn direction(i: usize) -> (d: (i32, i32))
    requires
        i < 8,
    ensures
        d.0 == dir_dx(i as int),
        d.1 == dir_dy(i as int),
{
    if i == 0 {
        (-1, 0)
    } else if i == 1 {
        (-1, -1)
    } else if i == 2 {
        (0, -1)
    } else if i == 3 {
        (1, -1)
    } else if i == 4 {
        (1, 0)
    } else if i == 5 {
        (1, 1)
    } else if i == 6 {
        (0, 1)
    } else {
        (-1, 1)
    }
}

/// The rotation of the direction list that brings the displacement
/// `(dx, dy)` to its head.
fn rotate_to_value(dx: i32, dy: i32) -> (i: usize)
    requires
        is_step(dx as int, dy as int),
    ensures
        i == dir_index(dx as int, dy as int),
        i < 8,
        dir_dx(i as int) == dx,
        dir_dy(i as int) == dy,
{
    if dx == -1 && dy == 0 {
        0
    } else if dx == -1 && dy == -1 {
        1
    } else if dx == 0 && dy == -1 {
        2
    } else if dx == 1 && dy == -1 {
        3
    } else if dx == 1 && dy == 0 {
        4
    } else if dx == 1 && dy == 1 {
        5
    } else if dx == 0 && dy == 1 {
        6
    } else {
        7
    }
}

fn shift_point(p: Point, i: usize) -> (q: Point)
    requires
        i < 8,
        i32::MIN < p.x < i32::MAX,
        i32::MIN < p.y < i32::MAX,
    ensures
        q == shift(p, i as int),
{
    let (dx, dy) = direction(i);
    Point { x: p.x + dx, y: p.y + dy }
}

fn is_foreground(mask: &GrayImage, p: Point) -> (r: bool)
    requires
        mask_fits(*mask),
    ensures
        r == is_fg(*mask, p),
{
    if p.x >= 0 && p.y >= 0 && (p.x as usize) < mask.width && (p.y as usize) < mask.height {
        proof {
            lemma_index_in_bounds(p.x as int, p.y as int, mask.width as int, mask.height as int);
        }
        mask.data[(p.y as usize) * mask.width + (p.x as usize)] != 0
    } else {
        false
    }
}

fn scan_forward(mask: &GrayImage, p: Point, d: usize) -> (r: Option<Point>)
    requires
        mask_fits(*mask),
        in_image(*mask, p),
        d < 8,
    ensures
        r == first_fg(*mask, p, d as int, 0),
{
    let mut k: usize = 0;
    while k < 8
        invariant
            k <= 8,
            d < 8,
            mask_fits(*mask),
            in_image(*mask, p),
            first_fg(*mask, p, d as int, 0) == first_fg(*mask, p, d as int, k as int),
        decreases 8 - k,
    {
        let q = shift_point(p, (d + k) % 8);
        if is_foreground(mask, q) {
            return Some(q);
        }
        k = k + 1;
    }
    None
}

fn scan_backward(mask: &GrayImage, p: Point, d: usize) -> (r: Option<Point>)
    requires
        mask_fits(*mask),
        in_image(*mask, p),
        d < 8,
    ensures
        r == last_fg(*mask, p, d as int, 7),
{
    let mut k: usize = 8;
    while k > 0
        invariant
            k <= 8,
            d < 8,
            mask_fits(*mask),
            in_image(*mask, p),
            last_fg(*mask, p, d as int, 7) == last_fg(*mask, p, d as int, k - 1),
        decreases k,
    {
        let q = shift_point(p, (d + k - 1) % 8);
        if is_foreground(mask, q) {
            return Some(q);
        }
        k = k - 1;
    }
    None
}

fn step(mask: &GrayImage, prev: Point, cur: Point) -> (nxt: Point)
    requires
        mask_fits(*mask),
        is_fg(*mask, prev),
        is_fg(*mask, cur),
        is_step(prev.x - cur.x, prev.y - cur.y),
    ensures
        nxt == next_point(*mask, prev, cur),
        is_fg(*mask, nxt),
        is_step(cur.x - nxt.x, cur.y - nxt.y),
{
    let d = rotate_to_value(prev.x - cur.x, prev.y - cur.y);
    proof {
        assert(shift(cur, d as int) == prev);
        lemma_last_fg_found(*mask, cur, d as int, 7);
        lemma_last_fg_is_fg(*mask, cur, d as int, 7);
    }
    match scan_backward(mask, cur, d) {
        Some(q) => q,
        None => cur,
    }
}

/// Follows the boundary from `start`, stopping when the trace closes or
/// after `trace_limit` steps.
fn trace_contour(mask: &GrayImage, start: Point) -> (pts: Vec<Point>)
    requires
        mask_fits(*mask),
        is_fg(*mask, start),
    ensures
        pts@ == contour_points(*mask, start),
        1 <= pts@.len() <= trace_limit(*mask),
        forall|i: int| 0 <= i < pts@.len() ==> in_image(*mask, #[trigger] pts@[i]),
{
    proof {
        lemma_first_fg_is_fg(*mask, start, 0, 0);
        assert(mask.width * mask.height >= 1) by (nonlinear_arith)
            requires
                mask.width >= 1,
                mask.height >= 1,
        ;
    }
    match scan_forward(mask, start, 0) {
        None => {
            let pts = vec![start];
            assert(pts@ =~= seq![start]);
            pts
        },
        Some(first) => {
            let limit: usize = 8 * (mask.width * mask.height);
            let ghost full = trace_from(*mask, start, first, first, start, limit as nat);
            let mut pts: Vec<Point> = Vec::new();
            let mut prev = first;
            let mut cur = start;
            let mut fuel: usize = limit;
            let mut done = false;
            while fuel > 0 && !done
                invariant
                    mask_fits(*mask),
                    in_image(*mask, start),
                    in_image(*mask, first),
                    is_fg(*mask, prev),
                    is_fg(*mask, cur),
                    is_step(prev.x - cur.x, prev.y - cur.y),
                    limit == trace_limit(*mask),
                    limit >= 1,
                    full == trace_from(*mask, start, first, first, start, limit as nat),
                    fuel <= limit,
                    done ==> pts@ == full,
                    !done ==> pts@ + trace_from(*mask, start, first, prev, cur, fuel as nat) == full,
                    !done ==> pts@.len() + fuel == limit,
                    done ==> 1 <= pts@.len() <= limit,
                    forall|i: int| 0 <= i < pts@.len() ==> in_image(*mask, #[trigger] pts@[i]),
                decreases fuel,
            {
                let nxt = step(mask, prev, cur);
                pts.push(cur);
                if nxt == start && cur == first {
                    done = true;
                    fuel = 0;
                } else {
                    assert(pts@ + trace_from(*mask, start, first, cur, nxt, (fuel - 1) as nat)
                        =~= full);
                    prev = cur;
                    cur = nxt;
                    fuel = fuel - 1;
                }
            }
            if !done {
                assert(pts@ =~= full);
            }
            pts
        },
    }
}

proof fn lemma_product_below(x: int, y: int, w: int, h: int)
    requires
        0 <= x < w,
        0 <= y < h,
    ensures
        0 <= x * y < w * h,
{
    assert(0 <= x * y < w * h) by (nonlinear_arith)
        requires
            0 <= x < w,
            0 <= y < h,
    ;
}

/// Twice the shoelace area of the closed polygon through `points`.
fn contour_area(points: &Vec<Point>, width: usize, height: usize) -> (a: u64)
    requires
        points@.len() <= 8 * (width * height),
        width * height <= MAX_PIXELS,
        forall|i: int|
            0 <= i < points@.len() ==> 0 <= #[trigger] points@[i].x < width && 0
                <= points@[i].y < height,
    ensures
        a == double_area(points@),
{
    let n = points.len();
    let ghost wh: int = width * height;
    let mut sum: i64 = 0;
    let mut i: usize = 0;
    while i < n
        invariant
            i <= n,
            n == points@.len(),
            n <= 8 * wh,
            wh == width * height,
            wh <= MAX_PIXELS,
            forall|k: int|
                0 <= k < points@.len() ==> 0 <= #[trigger] points@[k].x < width && 0
                    <= points@[k].y < height,
            sum == cross_sum(points@, i as int),
            -(i * wh) <= sum <= i * wh,
        decreases n - i,
    {
        let j: usize = (i + 1) % n;
        let p = points[i];
        let q = points[j];
        proof {
            assert(0 <= points@[j as int].x < width && 0 <= points@[j as int].y < height);
            lemma_product_below(p.x as int, q.y as int, width as int, height as int);
            lemma_product_below(q.x as int, p.y as int, width as int, height as int);
            assert((i + 1) * wh == i * wh + wh) by (nonlinear_arith);
            assert((i + 1) * wh <= 8 * wh * wh) by (nonlinear_arith)
                requires
                    i + 1 <= n,
                    n <= 8 * wh,
                    wh >= 0,
            ;
            assert(8 * wh * wh <= 8 * 0x1000_0000 * 0x1000_0000) by (nonlinear_arith)
                requires
                    0 <= wh <= 0x1000_0000,
            ;
        }
        let term: i64 = (p.x as i64) * (q.y as i64) - (q.x as i64) * (p.y as i64);
        sum = sum + term;
        i = i + 1;
    }
    proof {
        assert(n * wh <= 8 * 0x1000_0000 * 0x1000_0000) by (nonlinear_arith)
            requires
                n <= 8 * wh,
                0 <= wh <= 0x1000_0000,
        ;
    }
    if sum < 0 {
        (-sum) as u64
    } else {
        sum as u64
    }
}

proof fn lemma_contains_push(s: Seq<Point>, p: Point, q: Point)
    ensures
        s.push(p).contains(q) <==> (s.contains(q) || p == q),
{
    if s.push(p).contains(q) {
        let j = choose|j: int| 0 <= j < s.push(p).len() && s.push(p)[j] == q;
        if j < s.len() {
            assert(s[j] == q);
        }
    }
    if s.contains(q) {
        let j = choose|j: int| 0 <= j < s.len() && s[j] == q;
        assert(s.push(p)[j] == q);
    }
    if p == q {
        assert(s.push(p)[s.len() as int] == q);
    }
}

/// The cell of an in-bounds point is the only one whose point it is.
proof fn lemma_on_contours_push(cs: Seq<Seq<Point>>, pts: Seq<Point>, q: Point, i: int)
    requires
        i <= cs.len(),
    ensures
        on_contours(cs.push(pts), q, i) == on_contours(cs, q, i),
    decreases i,
{
    if i > 0 {
        lemma_on_contours_push(cs, pts, q, i - 1);
        assert(cs.push(pts)[i - 1] == cs[i - 1]);
    }
}

pub(crate) proof fn lemma_cell_of_point(width: int, height: int, c: int, x: int, y: int)
    requires
        0 <= c < width * height,
        width >= 0,
        height >= 0,
        0 <= x < width,
        0 <= y < height,
    ensures
        (c % width == x && c / width == y) <==> c == y * width + x,
{
    lemma_pixel_coords(c, width, height);
    if c == y * width + x {
        vstd::arithmetic::div_mod::lemma_fundamental_div_mod_converse(c, width, y, x);
    }
}

/// Sets to 255 every pixel of `img` that is one of `pts`.
pub(crate) fn draw_points(img: &mut GrayImage, pts: &Vec<Point>)
    requires
        old(img).wf(),
        old(img).width * old(img).height <= MAX_PIXELS,
    ensures
        final(img).wf(),
        final(img).width == old(img).width,
        final(img).height == old(img).height,
        forall|c: int|
            0 <= c < final(img).data@.len() ==> #[trigger] final(img).data@[c] == if pts@.contains(
                cell_point(old(img).width as int, c),
            ) {
                255u8
            } else {
                old(img).data@[c]
            },
{
    let ghost before = img.data@;
    let width = img.width;
    let height = img.height;
    let mut i: usize = 0;
    while i < pts.len()
        invariant
            i <= pts@.len(),
            img.wf(),
            img.width == width,
            img.height == height,
            width * height <= MAX_PIXELS,
            before.len() == img.data@.len(),
            forall|c: int|
                0 <= c < img.data@.len() ==> #[trigger] img.data@[c] == if pts@.subrange(
                    0,
                    i as int,
                ).contains(cell_point(width as int, c)) {
                    255u8
                } else {
                    before[c]
                },
        decreases pts@.len() - i,
    {
        let p = pts[i];
        let ghost done = pts@.subrange(0, i as int);
        assert(pts@.subrange(0, i + 1) =~= done.push(p));
        if p.x >= 0 && p.y >= 0 && (p.x as usize) < width && (p.y as usize) < height {
            proof {
                lemma_index_in_bounds(p.x as int, p.y as int, width as int, height as int);
            }
            let idx: usize = (p.y as usize) * width + (p.x as usize);
            img.data.set(idx, 255);
            proof {
                assert forall|c: int| 0 <= c < img.data@.len() implies #[trigger] img.data@[c] == if pts@.subrange(
                    0,
                    i + 1,
                ).contains(cell_point(width as int, c)) {
                    255u8
                } else {
                    before[c]
                } by {
                    lemma_contains_push(done, p, cell_point(width as int, c));
                    lemma_cell_of_point(width as int, height as int, c, p.x as int, p.y as int);
                    lemma_pixel_coords(c, width as int, height as int);
                }
            }
        } else {
            proof {
                assert forall|c: int| 0 <= c < img.data@.len() implies #[trigger] img.data@[c] == if pts@.subrange(
                    0,
                    i + 1,
                ).contains(cell_point(width as int, c)) {
                    255u8
                } else {
                    before[c]
                } by {
                    lemma_contains_push(done, p, cell_point(width as int, c));
                    lemma_pixel_coords(c, width as int, height as int);
                }
            }
        }
        i = i + 1;
    }
    assert(pts@.subrange(0, pts@.len() as int) =~= pts@);
}

/// Traces the boundary of every 8-connected foreground region, starting at
/// each 255 pixel (in raster order) whose west neighbor is 0, and keeps the
/// contours with at least `min_length` points and a doubled area of at
/// least `min_double_area`. Regions whose first row touches the left border
/// are not picked up. A start pixel that an earlier trace passed through
/// starts no new trace, so a boundary is traced once, from its first start
/// pixel in raster order (a solid block yields one contour, from its
/// top-left pixel).
pub fn find_contours(mask: &GrayImage, min_length: u32, min_double_area: u64) -> (contours: Vec<
    Contour,
>)
    requires
        mask_fits(*mask),
    ensures
        contours@.len() == contours_of(*mask, min_length, min_double_area).len(),
        forall|i: int|
            0 <= i < contours@.len() ==> (#[trigger] contours@[i]).points@ == contours_of(
                *mask,
                min_length,
                min_double_area,
            )[i] && contours@[i].double_area == double_area(contours@[i].points@),
        forall|i: int|
            0 <= i < contours@.len() ==> (#[trigger] contours@[i]).points@.len() >= min_length
                && contours@[i].double_area >= min_double_area,
{
    let width = mask.width;
    let height = mask.height;
    let n = mask.data.len();
    let mut contours: Vec<Contour> = Vec::new();
    let mut seen = GrayImage::filled(width, height, 0);
    let mut k: usize = 0;
    while k < n
        invariant
            k <= n,
            n == mask.data@.len(),
            width == mask.width,
            height == mask.height,
            mask_fits(*mask),
            seen.wf(),
            seen.width == width,
            seen.height == height,
            forall|c: int|
                0 <= c < n ==> #[trigger] seen.data@[c] == if on_contours(
                    traces_before(*mask, k as int),
                    cell_point(width as int, c),
                    traces_before(*mask, k as int).len() as int,
                ) {
                    255u8
                } else {
                    0u8
                },
            contours@.len() == contours_before(*mask, min_length, min_double_area, k as int).len(),
            forall|i: int|
                0 <= i < contours@.len() ==> (#[trigger] contours@[i]).points@ == contours_before(
                    *mask,
                    min_length,
                    min_double_area,
                    k as int,
                )[i] && contours@[i].double_area == double_area(contours@[i].points@),
            forall|i: int|
                0 <= i < contours@.len() ==> (#[trigger] contours@[i]).points@.len()
                    >= min_length && contours@[i].double_area >= min_double_area,
        decreases n - k,
    {
        proof {
            lemma_pixel_coords(k as int, width as int, height as int);
        }
        let x: usize = k % width;
        let y: usize = k / width;
        let ghost traced = traces_before(*mask, k as int);
        assert(pixel_point(*mask, k as int) == cell_point(width as int, k as int));
        if mask.data[k] == 255 && x > 0 && mask.data[k - 1] == 0 && seen.data[k] == 0 {
            let start = Point::new(x as i32, y as i32);
            assert(start == pixel_point(*mask, k as int));
            assert(mask.at(x as int, y as int) == mask.data@[k as int]);
            let points = trace_contour(mask, start);
            let double_area = contour_area(&points, width, height);
            let ghost before = seen.data@;
            draw_points(&mut seen, &points);
            proof {
                let now = traces_before(*mask, k + 1);
                assert(now == traced.push(points@));
                assert forall|c: int| 0 <= c < n implies #[trigger] seen.data@[c] == if on_contours(
                    now,
                    cell_point(width as int, c),
                    now.len() as int,
                ) {
                    255u8
                } else {
                    0u8
                } by {
                    lemma_on_contours_push(traced, points@, cell_point(width as int, c), traced.len() as int);
                    assert(before[c] == seen.data@[c] || points@.contains(cell_point(width as int, c)));
                }
            }
            if points.len() >= min_length as usize && double_area >= min_double_area {
                contours.push(Contour { points, double_area });
            }
        }
        k = k + 1;
    }
    contours
}

/// Every retained contour has at least `min_length` points and a doubled
/// area of at least `min_double_area`.
pub proof fn lemma_contours_pass_filters(
    mask: GrayImage,
    min_length: u32,
    min_double_area: u64,
    k: int,
)
    ensures
        forall|i: int|
            0 <= i < contours_before(mask, min_length, min_double_area, k).len() ==> keeps(
                #[trigger] contours_before(mask, min_length, min_double_area, k)[i],
                min_length,
                min_double_area,
            ),
    decreases k,
{
    if k > 0 {
        lemma_contours_pass_filters(mask, min_length, min_double_area, k - 1);
        let prev = contours_before(mask, min_length, min_double_area, k - 1);
        let now = contours_before(mask, min_length, min_double_area, k);
        assert forall|i: int| 0 <= i < now.len() implies keeps(
            #[trigger] now[i],
            min_length,
            min_double_area,
        ) by {
            if i < prev.len() {
                assert(now[i] == prev[i]);
            }
        }
    }
}

/// A mask in which no pixel starts a trace yields no contour.
pub proof fn lemma_no_start_no_contours(
    mask: GrayImage,
    min_length: u32,
    min_double_area: u64,
    k: int,
)
    requires
        forall|j: int| 0 <= j < k ==> !is_start(mask, j),
    ensures
        contours_before(mask, min_length, min_double_area, k).len() == 0,
    decreases k,
{
    if k > 0 {
        lemma_no_start_no_contours(mask, min_length, min_double_area, k - 1);
    }
}

/// An all-zero mask has no contour.
pub proof fn lemma_blank_mask_no_contours(mask: GrayImage, min_length: u32, min_double_area: u64)
    requires
        mask.wf(),
        forall|i: int| 0 <= i < mask.data@.len() ==> mask.data@[i] == 0u8,
    ensures
        contours_of(mask, min_length, min_double_area).len() == 0,
{
    lemma_no_start_no_contours(mask, min_length, min_double_area, mask.data@.len() as int);
}

/// An all-255 mask has no contour: every pixel off the left border has a
/// foreground west neighbor, and pixels on the border never start a trace.
pub proof fn lemma_full_mask_no_contours(mask: GrayImage, min_length: u32, min_double_area: u64)
    requires
        mask.wf(),
        forall|i: int| 0 <= i < mask.data@.len() ==> mask.data@[i] == 255u8,
    ensures
        contours_of(mask, min_length, min_double_area).len() == 0,
{
    let n = mask.data@.len() as int;
    assert forall|j: int| 0 <= j < n implies !is_start(mask, j) by {
        lemma_pixel_coords(j, mask.width as int, mask.height as int);
        if j == 0 {
            assert(0int % (mask.width as int) == 0) by (nonlinear_arith)
                requires
                    mask.width > 0,
            ;
        }
        if j > 0 {
            assert(mask.data@[j - 1] == 255u8);
        }
    }
    lemma_no_start_no_contours(mask, min_length, min_double_area, n);
}

/// Contour output depends on the mask and the two filters alone: two runs
/// on the same mask give the same contours.
pub proof fn lemma_contours_repeatable(
    mask: GrayImage,
    min_length: u32,
    min_double_area: u64,
    first: Seq<Seq<Point>>,
    second: Seq<Seq<Point>>,
)
    requires
        first == contours_of(mask, min_length, min_double_area),
        second == contours_of(mask, min_length, min_double_area),
    ensures
        first == second,
{
}

} // verus!
