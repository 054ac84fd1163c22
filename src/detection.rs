use vstd::prelude::*;
use crate::circle::{Circle, TemplateCache};
use crate::contour::{
    cell_point, contours_of, draw_points, find_contours, lemma_blank_mask_no_contours,
    lemma_cell_of_point, mask_fits, on_contours, Point,
};
use crate::hough::{
    hough_transform, lemma_blank_image_no_edges, lemma_no_edges_no_circles, votes_fit, votes_of,
};
use crate::peaks::peaks_of;
use crate::raster::{lemma_index_in_bounds, lemma_pixel_coords, GrayImage, RgbImage, MAX_PIXELS};

verus! {

/// Whether one of the first `j` offsets of `t` about the center of `c`
/// lands on `(x, y)`.
pub open spec fn on_outline(c: Circle, t: Seq<(i32, i32)>, x: int, y: int, j: int) -> bool
    decreases j,
{
    if j <= 0 {
        false
    } else {
        (c.x + t[j - 1].0 == x && c.y + t[j - 1].1 == y) || on_outline(c, t, x, y, j - 1)
    }
}

/// Whether `(x, y)` lies on the outline of one of the first `i` circles,
/// each drawn with the template of its radius.
pub open spec fn on_circles(cs: Seq<Circle>, cache: TemplateCache, x: int, y: int, i: int) -> bool
    decreases i,
{
    if i <= 0 {
        false
    } else {
        let drawn = match cache.template_for(cs[i - 1].radius) {
            Some(t) => on_outline(cs[i - 1], t, x, y, t.len() as int),
            None => false,
        };
        drawn || on_circles(cs, cache, x, y, i - 1)
    }
}

/// Renders the retained contours of `mask` into `contour_img`: 255 on every
/// contour point, 0 elsewhere.
pub fn detect_contours(
    mask: &GrayImage,
    contour_img: &mut GrayImage,
    min_length: u32,
    min_double_area: u64,
)
    requires
        mask_fits(*mask),
        old(contour_img).wf(),
        old(contour_img).width == mask.width,
        old(contour_img).height == mask.height,
    ensures
        final(contour_img).wf(),
        final(contour_img).width == mask.width,
        final(contour_img).height == mask.height,
        forall|c: int|
            0 <= c < final(contour_img).data@.len() ==> #[trigger] final(contour_img).data@[c]
                == if on_contours(
                contours_of(*mask, min_length, min_double_area),
                cell_point(mask.width as int, c),
                contours_of(*mask, min_length, min_double_area).len() as int,
            ) {
                255u8
            } else {
                0u8
            },
{
    contour_img.fill(0);
    let contours = find_contours(mask, min_length, min_double_area);
    let ghost cs = contours_of(*mask, min_length, min_double_area);
    let mut i: usize = 0;
    while i < contours.len()
        invariant
            i <= contours@.len(),
            contours@.len() == cs.len(),
            forall|j: int| 0 <= j < contours@.len() ==> (#[trigger] contours@[j]).points@ == cs[j],
            contour_img.wf(),
            contour_img.width == mask.width,
            contour_img.height == mask.height,
            mask_fits(*mask),
            forall|c: int|
                0 <= c < contour_img.data@.len() ==> #[trigger] contour_img.data@[c] == if on_contours(
                    cs,
                    cell_point(mask.width as int, c),
                    i as int,
                ) {
                    255u8
                } else {
                    0u8
                },
        decreases contours@.len() - i,
    {
        assert(contours@[i as int].points@ == cs[i as int]);
        draw_points(contour_img, &contours[i].points);
        i = i + 1;
    }
}

/// Sets to 255 every in-bounds pixel at a template offset from the center
/// of `c`.
fn draw_outline(img: &mut GrayImage, c: &Circle, t: &Vec<(i32, i32)>)
    requires
        old(img).wf(),
        old(img).width * old(img).height <= MAX_PIXELS,
    ensures
        final(img).wf(),
        final(img).width == old(img).width,
        final(img).height == old(img).height,
        forall|k: int|
            0 <= k < final(img).data@.len() ==> #[trigger] final(img).data@[k] == if on_outline(
                *c,
                t@,
                k % (old(img).width as int),
                k / (old(img).width as int),
                t@.len() as int,
            ) {
                255u8
            } else {
                old(img).data@[k]
            },
{
    let ghost before = img.data@;
    let width = img.width;
    let height = img.height;
    if width == 0 || height == 0 {
        assert(width * height == 0) by (nonlinear_arith)
            requires
                width == 0 || height == 0,
        ;
        return;
    }
    proof {
        assert(width <= width * height && height <= width * height) by (nonlinear_arith)
            requires
                width > 0,
                height > 0,
        ;
    }
    let mut j: usize = 0;
    while j < t.len()
        invariant
            j <= t@.len(),
            0 < width <= MAX_PIXELS,
            0 < height <= MAX_PIXELS,
            img.wf(),
            img.width == width,
            img.height == height,
            width * height <= MAX_PIXELS,
            before.len() == img.data@.len(),
            forall|k: int|
                0 <= k < img.data@.len() ==> #[trigger] img.data@[k] == if on_outline(
                    *c,
                    t@,
                    k % (width as int),
                    k / (width as int),
                    j as int,
                ) {
                    255u8
                } else {
                    before[k]
                },
        decreases t@.len() - j,
    {
        let (dx, dy) = t[j];
        let x: i64 = c.x as i64 + dx as i64;
        let y: i64 = c.y as i64 + dy as i64;
        if x >= 0 && y >= 0 && x < width as i64 && y < height as i64 {
            proof {
                lemma_index_in_bounds(x as int, y as int, width as int, height as int);
            }
            let idx: usize = (y as usize) * width + (x as usize);
            img.data.set(idx, 255);
            proof {
                assert forall|k: int| 0 <= k < img.data@.len() implies #[trigger] img.data@[k] == if on_outline(
                    *c,
                    t@,
                    k % (width as int),
                    k / (width as int),
                    j + 1,
                ) {
                    255u8
                } else {
                    before[k]
                } by {
                    lemma_cell_of_point(width as int, height as int, k, x as int, y as int);
                }
            }
        } else {
            proof {
                assert forall|k: int| 0 <= k < img.data@.len() implies #[trigger] img.data@[k] == if on_outline(
                    *c,
                    t@,
                    k % (width as int),
                    k / (width as int),
                    j + 1,
                ) {
                    255u8
                } else {
                    before[k]
                } by {
                    lemma_pixel_coords(k, width as int, height as int);
                }
            }
        }
        j = j + 1;
    }
}

/// Renders the outlines of `circles` into `circle_img`, each drawn with the
/// template of its radius: 255 on the outlines, 0 elsewhere.
pub fn render_circles(circle_img: &mut GrayImage, circles: &Vec<Circle>, cache: &TemplateCache)
    requires
        old(circle_img).wf(),
        old(circle_img).width * old(circle_img).height <= MAX_PIXELS,
        cache.wf(),
    ensures
        final(circle_img).wf(),
        final(circle_img).width == old(circle_img).width,
        final(circle_img).height == old(circle_img).height,
        forall|k: int|
            0 <= k < final(circle_img).data@.len() ==> #[trigger] final(circle_img).data@[k]
                == if on_circles(
                circles@,
                *cache,
                k % (old(circle_img).width as int),
                k / (old(circle_img).width as int),
                circles@.len() as int,
            ) {
                255u8
            } else {
                0u8
            },
{
    circle_img.fill(0);
    let width = circle_img.width;
    let height = circle_img.height;
    let mut i: usize = 0;
    while i < circles.len()
        invariant
            i <= circles@.len(),
            cache.wf(),
            circle_img.wf(),
            circle_img.width == width,
            circle_img.height == height,
            width * height <= MAX_PIXELS,
            forall|k: int|
                0 <= k < circle_img.data@.len() ==> #[trigger] circle_img.data@[k] == if on_circles(
                    circles@,
                    *cache,
                    k % (width as int),
                    k / (width as int),
                    i as int,
                ) {
                    255u8
                } else {
                    0u8
                },
        decreases circles@.len() - i,
    {
        let c = circles[i];
        match cache.get(c.radius) {
            Some(t) => {
                draw_outline(circle_img, &c, t);
            },
            None => {},
        }
        i = i + 1;
    }
}

/// Finds the circles of `contour_img` and renders their outlines into
/// `circle_img` with `render_circles`. Returns the circles.
pub fn detect_circles(
    contour_img: &GrayImage,
    circle_img: &mut GrayImage,
    cache: &TemplateCache,
    vote_thresh: u32,
) -> (circles: Vec<Circle>)
    requires
        contour_img.wf(),
        cache.wf(),
        contour_img.height * contour_img.width <= MAX_PIXELS,
        votes_fit(*contour_img, *cache),
        old(circle_img).wf(),
        old(circle_img).width == contour_img.width,
        old(circle_img).height == contour_img.height,
    ensures
        circles@ == peaks_of(
            votes_of(*contour_img, *cache),
            contour_img.width as int,
            cache.radii@,
            vote_thresh,
        ),
        final(circle_img).wf(),
        final(circle_img).width == contour_img.width,
        final(circle_img).height == contour_img.height,
        forall|k: int|
            0 <= k < final(circle_img).data@.len() ==> #[trigger] final(circle_img).data@[k]
                == if on_circles(
                circles@,
                *cache,
                k % (contour_img.width as int),
                k / (contour_img.width as int),
                circles@.len() as int,
            ) {
                255u8
            } else {
                0u8
            },
{
    proof {
        assert(contour_img.height * contour_img.width == contour_img.width * contour_img.height)
            by (nonlinear_arith);
    }
    let circles = hough_transform(contour_img, cache, vote_thresh);
    render_circles(circle_img, &circles, cache);
    circles
}

/// An all-zero mask yields no contour, so its rendered contour image holds
/// no edge pixel, and no circle is found in it.
pub proof fn lemma_blank_mask_no_detections(
    mask: GrayImage,
    min_length: u32,
    min_double_area: u64,
    contour_img: GrayImage,
    cache: TemplateCache,
    vote_thresh: u32,
)
    requires
        mask.wf(),
        forall|i: int| 0 <= i < mask.data@.len() ==> mask.data@[i] == 0u8,
        forall|c: int|
            0 <= c < contour_img.data@.len() ==> #[trigger] contour_img.data@[c] == if on_contours(
                contours_of(mask, min_length, min_double_area),
                cell_point(mask.width as int, c),
                contours_of(mask, min_length, min_double_area).len() as int,
            ) {
                255u8
            } else {
                0u8
            },
    ensures
        contours_of(mask, min_length, min_double_area).len() == 0,
        peaks_of(votes_of(contour_img, cache), contour_img.width as int, cache.radii@, vote_thresh).len()
            == 0,
{
    lemma_blank_mask_no_contours(mask, min_length, min_double_area);
    assert forall|i: int| 0 <= i < contour_img.data@.len() implies contour_img.data@[i] != 255u8 by {
        assert(contour_img.data@[i] == 0u8);
    }
    lemma_blank_image_no_edges(contour_img);
    lemma_no_edges_no_circles(contour_img, cache, vote_thresh);
}

/// Nearest-neighbor downscaling by an integer factor: the output is
/// `width / factor` by `height / factor`, and its pixel `(x, y)` is input
/// pixel `(x * factor, y * factor)`.
pub fn downscale(src: &RgbImage, factor: usize) -> (dst: RgbImage)
    requires
        src.wf(),
        factor > 0,
    ensures
        dst.wf(),
        dst.width == src.width / factor,
        dst.height == src.height / factor,
        forall|i: int|
            0 <= i < dst.data@.len() ==> #[trigger] dst.data@[i] == src.data@[((i / (dst.width as int))
                * factor) * src.width + (i % (dst.width as int)) * factor],
{
    let ow = src.width / factor;
    let oh = src.height / factor;
    proof {
        assert(ow * factor <= src.width) by (nonlinear_arith)
            requires
                ow == src.width / factor,
                factor > 0,
        ;
        assert(oh * factor <= src.height) by (nonlinear_arith)
            requires
                oh == src.height / factor,
                factor > 0,
        ;
        assert(ow * oh <= src.width * src.height) by (nonlinear_arith)
            requires
                ow * factor <= src.width,
                oh * factor <= src.height,
                factor > 0,
        ;
    }
    let len = src.data.len();
    let n: usize = ow * oh;
    let mut data: Vec<[u8; 3]> = Vec::new();
    let mut i: usize = 0;
    while i < n
        invariant
            i <= n,
            n == ow * oh,
            len == src.data@.len(),
            ow == src.width / factor,
            oh == src.height / factor,
            ow * factor <= src.width,
            oh * factor <= src.height,
            factor > 0,
            src.wf(),
            data@.len() == i,
            forall|k: int|
                0 <= k < i ==> #[trigger] data@[k] == src.data@[((k / (ow as int)) * factor)
                    * src.width + (k % (ow as int)) * factor],
        decreases n - i,
    {
        proof {
            lemma_pixel_coords(i as int, ow as int, oh as int);
        }
        let x: usize = i % ow;
        let y: usize = i / ow;
        proof {
            assert(x * factor < src.width) by (nonlinear_arith)
                requires
                    x < ow,
                    ow * factor <= src.width,
                    factor > 0,
            ;
            assert(y * factor < src.height) by (nonlinear_arith)
                requires
                    y < oh,
                    oh * factor <= src.height,
                    factor > 0,
            ;
            lemma_index_in_bounds(
                (x * factor) as int,
                (y * factor) as int,
                src.width as int,
                src.height as int,
            );
        }
        let p = src.data[(y * factor) * src.width + x * factor];
        data.push(p);
        i = i + 1;
    }
    RgbImage { width: ow, height: oh, data }
}

} // verus!
