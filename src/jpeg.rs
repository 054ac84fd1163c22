use vstd::prelude::*;
use crate::raster::{GrayImage, RgbImage};

verus! {

/// The JPEG quality the observer channels are encoded at.
pub const JPEG_QUALITY: u8 = 60;

/// A frame handed to the encoder: one byte per pixel, or three.
pub enum ImageView<'a> {
    Gray(&'a GrayImage),
    Rgb(&'a RgbImage),
}

/// The color layout of a buffer handed to the encoder.
pub enum JpegColor {
    Gray,
    Rgb,
}

/// The bytes that the JPEG encoder writes for a `width` by `height` buffer
/// of `pixels`, three bytes per pixel when `rgb` holds, at `quality`.
pub uninterp spec fn jpeg_of(pixels: Seq<u8>, width: u32, height: u32, rgb: bool, quality: u8) -> Seq<u8>;

pub open spec fn color_channels(rgb: bool) -> int {
    if rgb {
        3
    } else {
        1
    }
}

/// Relies on `image::codecs::jpeg::JpegEncoder::encode` (image 0.25), which
/// asserts that the buffer holds `width * height * channels` bytes, returns
/// an error when a side is 0 or does not fit a `u16`, and otherwise writes
/// bytes that depend on the buffer, the size, the color type and the
/// quality alone. Its only other errors come from the writer, and writing
/// into a `Vec` does not fail, so every other size is encoded.
#[verifier::external_body]
fn encode_jpeg(pixels: &Vec<u8>, width: u32, height: u32, color: JpegColor, quality: u8) -> (r:
    Option<Vec<u8>>)
    requires
        pixels@.len() == width * height * color_channels(color is Rgb),
    ensures
        r matches Some(v) ==> v@ == jpeg_of(pixels@, width, height, color is Rgb, quality),
        (width == 0 || height == 0 || width > 65535 || height > 65535) ==> r is None,
        (1 <= width <= 65535 && 1 <= height <= 65535) ==> r is Some,
{
    let color_type = match color {
        JpegColor::Gray => image::ExtendedColorType::L8,
        JpegColor::Rgb => image::ExtendedColorType::Rgb8,
    };
    let mut buf = Vec::new();
    let mut encoder = image::codecs::jpeg::JpegEncoder::new_with_quality(&mut buf, quality);
    match encoder.encode(pixels, width, height, color_type) {
        Ok(()) => Some(buf),
        Err(_) => None,
    }
}

/// The bytes of RGB pixels, channel by channel.
pub open spec fn rgb_bytes(pixels: Seq<[u8; 3]>) -> Seq<u8> {
    Seq::new(3 * pixels.len(), |i: int| pixels[i / 3][i % 3])
}

fn flatten_rgb(pixels: &Vec<[u8; 3]>) -> (bytes: Vec<u8>)
    ensures
        bytes@ == rgb_bytes(pixels@),
{
    let mut bytes: Vec<u8> = Vec::new();
    let mut i: usize = 0;
    while i < pixels.len()
        invariant
            i <= pixels@.len(),
            bytes@.len() == 3 * i,
            forall|k: int| 0 <= k < 3 * i ==> #[trigger] bytes@[k] == pixels@[k / 3][k % 3],
        decreases pixels@.len() - i,
    {
        let p = pixels[i];
        bytes.push(p[0]);
        bytes.push(p[1]);
        bytes.push(p[2]);
        i = i + 1;
    }
    assert(bytes@ =~= rgb_bytes(pixels@));
    bytes
}

/// Whether a frame of this size can be encoded: both sides between 1 and
/// 65535.
pub open spec fn encodable(width: int, height: int) -> bool {
    1 <= width <= 65535 && 1 <= height <= 65535
}

/// Encodes a frame as JPEG at `JPEG_QUALITY`: `None` exactly for a buffer
/// that does not match its size and for a side that is 0 or above 65535.
pub fn array_to_jpeg(view: ImageView) -> (r: Option<Vec<u8>>)
    ensures
        match view {
            ImageView::Gray(img) => {
                &&& (!img.wf() || !encodable(img.width as int, img.height as int)) ==> r is None
                &&& (img.wf() && encodable(img.width as int, img.height as int)) ==> r is Some
                &&& r matches Some(v) ==> v@ == jpeg_of(
                    img.data@,
                    img.width as u32,
                    img.height as u32,
                    false,
                    JPEG_QUALITY,
                )
            },
            ImageView::Rgb(img) => {
                &&& (!img.wf() || !encodable(img.width as int, img.height as int)) ==> r is None
                &&& (img.wf() && encodable(img.width as int, img.height as int)) ==> r is Some
                &&& r matches Some(v) ==> v@ == jpeg_of(
                    rgb_bytes(img.data@),
                    img.width as u32,
                    img.height as u32,
                    true,
                    JPEG_QUALITY,
                )
            },
        },
{
    match view {
        ImageView::Gray(img) => {
            if img.width == 0 || img.height == 0 || img.width > 65535 || img.height > 65535 {
                return None;
            }
            proof {
                assert(img.width * img.height <= 65535 * 65535) by (nonlinear_arith)
                    requires
                        img.width <= 65535,
                        img.height <= 65535,
                ;
            }
            if img.data.len() != img.width * img.height {
                return None;
            }
            encode_jpeg(&img.data, img.width as u32, img.height as u32, JpegColor::Gray, JPEG_QUALITY)
        },
        ImageView::Rgb(img) => {
            if img.width == 0 || img.height == 0 || img.width > 65535 || img.height > 65535 {
                return None;
            }
            proof {
                assert(img.width * img.height <= 65535 * 65535) by (nonlinear_arith)
                    requires
                        img.width <= 65535,
                        img.height <= 65535,
                ;
            }
            if img.data.len() != img.width * img.height {
                return None;
            }
            let bytes = flatten_rgb(&img.data);
            encode_jpeg(&bytes, img.width as u32, img.height as u32, JpegColor::Rgb, JPEG_QUALITY)
        },
    }
}

} // verus!
