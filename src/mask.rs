use vstd::prelude::*;
use crate::color::{rgb_in_band, rgb_to_hsv, ColorRange};
use crate::raster::{GrayImage, RgbImage};

verus! {

/// The mask byte for one RGB pixel: 255 inside the HSV band, 0 outside.
pub open spec fn mask_byte(lower: [u8; 3], upper: [u8; 3], p: [u8; 3]) -> u8 {
    if rgb_in_band(lower, upper, p[0] as int, p[1] as int, p[2] as int) {
        255
    } else {
        0
    }
}

/// The mask of a whole frame, pixel for pixel.
pub open spec fn mask_of(pixels: Seq<[u8; 3]>, lower: [u8; 3], upper: [u8; 3]) -> Seq<u8> {
    Seq::new(pixels.len(), |i: int| mask_byte(lower, upper, pixels[i]))
}

/// Writes into `mask` 255 for each pixel of `rgb_frame` whose HSV form lies
/// in the band `[color_lower, color_upper]`, and 0 for every other pixel.
pub fn run_color_mask(
    rgb_frame: &RgbImage,
    mask: &mut GrayImage,
    color_lower: [u8; 3],
    color_upper: [u8; 3],
)
    requires
        rgb_frame.wf(),
        old(mask).wf(),
        old(mask).width == rgb_frame.width,
        old(mask).height == rgb_frame.height,
    ensures
        final(mask).wf(),
        final(mask).width == rgb_frame.width,
        final(mask).height == rgb_frame.height,
        final(mask).data@ == mask_of(rgb_frame.data@, color_lower, color_upper),
        forall|i: int|
            0 <= i < final(mask).data@.len() ==> final(mask).data@[i] == 0u8
                || final(mask).data@[i] == 255u8,
{
    let range = ColorRange { lower: color_lower, upper: color_upper };
    let n = rgb_frame.data.len();
    let mut i: usize = 0;
    while i < n
        invariant
            i <= n,
            n == rgb_frame.data@.len(),
            mask.data@.len() == n,
            mask.width == rgb_frame.width,
            mask.height == rgb_frame.height,
            range.lower == color_lower,
            range.upper == color_upper,
            forall|j: int|
                0 <= j < i ==> mask.data@[j] == mask_byte(color_lower, color_upper, rgb_frame.data@[j]),
        decreases n - i,
    {
        let p = rgb_frame.data[i];
        let (h, s, v) = rgb_to_hsv(p[0], p[1], p[2]);
        let m: u8 = if range.in_range(h, s, v) {
            255
        } else {
            0
        };
        mask.data.set(i, m);
        i = i + 1;
    }
    assert(mask.data@ =~= mask_of(rgb_frame.data@, color_lower, color_upper));
}

/// Every byte of a mask is 0 or 255, whatever the frame and the band.
pub proof fn lemma_mask_is_binary(pixels: Seq<[u8; 3]>, lower: [u8; 3], upper: [u8; 3], i: int)
    requires
        0 <= i < pixels.len(),
    ensures
        mask_of(pixels, lower, upper)[i] == 0u8 || mask_of(pixels, lower, upper)[i] == 255u8,
{
}

/// Two runs of the masker on the same frame and band leave identical masks.
pub proof fn lemma_mask_repeatable(
    frame: RgbImage,
    lower: [u8; 3],
    upper: [u8; 3],
    first: GrayImage,
    second: GrayImage,
)
    requires
        first.data@ == mask_of(frame.data@, lower, upper),
        second.data@ == mask_of(frame.data@, lower, upper),
    ensures
        first.data@ == second.data@,
{
}

} // verus!
