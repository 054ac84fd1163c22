use vstd::prelude::*;
use crate::color::{hue_byte, round_div, rgb_to_hsv, saturation_byte, value_byte};

verus! {

/// How the bytes of one pixel are laid out.
#[derive(Clone, Copy, Debug, PartialEq, Eq, Structural)]
pub enum PixelFormat {
    /// 3 bytes per pixel: R, G, B.
    RGB8,
    /// 4 bytes per pixel: R, G, B, A.
    RGBA8,
    /// 3 bytes per pixel: B, G, R.
    BGR8,
    /// 1 byte per pixel.
    GRAY8,
    /// 3 bytes per pixel: H, S, V.
    HSV,
}

pub open spec fn format_bytes(f: PixelFormat) -> nat {
    match f {
        PixelFormat::GRAY8 => 1,
        PixelFormat::RGBA8 => 4,
        _ => 3,
    }
}

impl PixelFormat {
    /// How many bytes each pixel uses in this format.
    pub fn bytes_per_pixel(&self) -> (n: u32)
        ensures
            n == format_bytes(*self),
    {
        match self {
            PixelFormat::GRAY8 => 1,
            PixelFormat::RGB8 | PixelFormat::BGR8 | PixelFormat::HSV => 3,
            PixelFormat::RGBA8 => 4,
        }
    }
}

#[derive(Debug, PartialEq, Eq, Structural)]
pub enum FrameError {
    /// The buffer does not hold `width * height * bytes_per_pixel` bytes.
    InvalidDimensions { expected: usize, actual: usize },
    /// The width or the height is zero.
    ZeroDimensions,
}

impl FrameError {
    /// The message that describes the error.
    pub fn message(&self) -> (s: &'static str)
        ensures
            self is InvalidDimensions ==> s@ == "Buffer size doesn't match"@,
            self is ZeroDimensions ==> s@ == "Provided dimensions are zero"@,
    {
        match self {
            FrameError::InvalidDimensions { .. } => "Buffer size doesn't match",
            FrameError::ZeroDimensions => "Provided dimensions are zero",
        }
    }
}

/// The parts a frame is built from, before they are checked.
pub struct FrameConfig {
    pub data: Vec<u8>,
    pub width: u32,
    pub height: u32,
    pub format: PixelFormat,
}

/// An image frame: raw pixel bytes, row by row, in the given format.
pub struct Frame {
    pub data: Vec<u8>,
    pub width: u32,
    pub height: u32,
    pub format: PixelFormat,
}

/// The number of pixels of a frame.
pub open spec fn pixel_count(f: Frame) -> int {
    f.width * f.height
}

/// The R, G, B of pixel `p` of a frame that is not HSV.
pub open spec fn rgb_at(f: Frame, p: int) -> (u8, u8, u8) {
    let i = p * format_bytes(f.format);
    match f.format {
        PixelFormat::BGR8 => (f.data@[i + 2], f.data@[i + 1], f.data@[i]),
        PixelFormat::GRAY8 => (f.data@[i], f.data@[i], f.data@[i]),
        _ => (f.data@[i], f.data@[i + 1], f.data@[i + 2]),
    }
}

/// Luminance `0.299 R + 0.587 G + 0.114 B`, truncated.
pub open spec fn gray_of(r: int, g: int, b: int) -> int {
    (299 * r + 587 * g + 114 * b) / 1000
}

/// The sixth of the hue circle that hue byte `h` falls in (6 for `h = 255`).
pub open spec fn hue_sector(h: int) -> int {
    (2 * h) / 85
}

/// `1 - |(hue / 60) mod 2 - 1|`, in 85ths.
pub open spec fn hue_ramp(h: int) -> int {
    let t = (2 * h) % 170;
    if t >= 85 {
        170 - t
    } else {
        t
    }
}

/// The three channel levels of an HSV pixel, scaled to bytes and rounded:
/// the top (`V`), the rising or falling middle one, and the floor.
pub open spec fn hsv_levels(h: int, s: int, v: int) -> (int, int, int) {
    let top = v;
    let mid = round_div(v * s * hue_ramp(h) + v * (255 - s) * 85, (255 * 85) as int);
    let low = round_div(v * (255 - s), 255);
    (top, mid, low)
}

/// HSV to RGB: chroma `V * S`, the middle channel following the hue, and
/// `V - chroma` added to all three.
pub open spec fn hsv_to_rgb_spec(h: int, s: int, v: int) -> (int, int, int) {
    let (c, x, o) = hsv_levels(h, s, v);
    let sector = hue_sector(h);
    if sector == 0 {
        (c, x, o)
    } else if sector == 1 {
        (x, c, o)
    } else if sector == 2 {
        (o, c, x)
    } else if sector == 3 {
        (o, x, c)
    } else if sector == 4 {
        (x, o, c)
    } else if sector == 5 {
        (c, o, x)
    } else {
        (o, o, o)
    }
}

/// The byte of channel `c` (0, 1 or 2) of a triple.
pub open spec fn channel(t: (int, int, int), c: int) -> int {
    if c == 0 {
        t.0
    } else if c == 1 {
        t.1
    } else {
        t.2
    }
}

pub open spec fn rgb_int(t: (u8, u8, u8)) -> (int, int, int) {
    (t.0 as int, t.1 as int, t.2 as int)
}

/// Pixel `p` of a frame in 8-bit RGB.
pub open spec fn rgb8_pixel(f: Frame, p: int) -> (int, int, int) {
    match f.format {
        PixelFormat::HSV => hsv_to_rgb_spec(
            f.data@[3 * p] as int,
            f.data@[3 * p + 1] as int,
            f.data@[3 * p + 2] as int,
        ),
        _ => rgb_int(rgb_at(f, p)),
    }
}

/// Pixel `p` of a frame in grayscale.
pub open spec fn gray_pixel(f: Frame, p: int) -> int {
    match f.format {
        PixelFormat::GRAY8 => f.data@[p] as int,
        PixelFormat::HSV => f.data@[3 * p + 2] as int,
        _ => {
            let (r, g, b) = rgb_at(f, p);
            gray_of(r as int, g as int, b as int)
        },
    }
}

/// Pixel `p` of a frame in HSV.
pub open spec fn hsv_pixel(f: Frame, p: int) -> (int, int, int) {
    match f.format {
        PixelFormat::HSV => (
            f.data@[3 * p] as int,
            f.data@[3 * p + 1] as int,
            f.data@[3 * p + 2] as int,
        ),
        PixelFormat::GRAY8 => (0, 0, f.data@[p] as int),
        _ => {
            let (r, g, b) = rgb_at(f, p);
            (
                hue_byte(r as int, g as int, b as int),
                saturation_byte(r as int, g as int, b as int),
                value_byte(r as int, g as int, b as int),
            )
        },
    }
}

/// `data` holds `n` three-byte pixels, pixel `p` being `pix(p)`.
pub open spec fn laid_out(data: Seq<u8>, pix: spec_fn(int) -> (int, int, int), n: int) -> bool {
    &&& data.len() == 3 * n
    &&& forall|i: int| 0 <= i < 3 * n ==> #[trigger] data[i] as int == channel(pix(i / 3), i % 3)
}

/// A pixel packed as `0x00RRGGBB`.
pub open spec fn pack(t: (int, int, int)) -> int {
    t.0 * 65536 + t.1 * 256 + t.2
}

proof fn lemma_push_pixel(data: Seq<u8>, pix: spec_fn(int) -> (int, int, int), n: int, t: (u8, u8, u8))
    requires
        n >= 0,
        laid_out(data, pix, n),
        rgb_int(t) == pix(n),
    ensures
        laid_out(data.push(t.0).push(t.1).push(t.2), pix, n + 1),
{
    let d = data.push(t.0).push(t.1).push(t.2);
    assert forall|i: int| 0 <= i < 3 * (n + 1) implies #[trigger] d[i] as int == channel(pix(i / 3), i % 3) by {
        if i < 3 * n {
            assert(d[i] == data[i]);
        }
    }
}

fn push_pixel(v: &mut Vec<u8>, t: (u8, u8, u8))
    ensures
        final(v)@ == old(v)@.push(t.0).push(t.1).push(t.2),
{
    v.push(t.0);
    v.push(t.1);
    v.push(t.2);
}

proof fn lemma_pixel_bytes(p: int, count: int, n: int)
    requires
        0 <= p < count,
        n >= 0,
    ensures
        0 <= p * n,
        p * n + n <= count * n,
{
    assert(0 <= p * n) by (nonlinear_arith)
        requires
            0 <= p,
            n >= 0,
    ;
    assert(p * n + n <= count * n) by (nonlinear_arith)
        requires
            p < count,
            n >= 0,
    ;
}

impl Frame {
    /// The buffer holds exactly `width * height` pixels of the format.
    pub open spec fn wf(&self) -> bool {
        &&& self.width > 0
        &&& self.height > 0
        &&& self.data@.len() == self.width * self.height * format_bytes(self.format)
    }

    /// Checks the dimensions against the buffer and builds the frame.
    pub fn new(config: FrameConfig) -> (r: Result<Frame, FrameError>)
        ensures
            (config.width == 0 || config.height == 0) <==> r == Err::<Frame, FrameError>(
                FrameError::ZeroDimensions,
            ),
            config.width > 0 && config.height > 0 && config.data@.len() != config.width
                * config.height * format_bytes(config.format) ==> r == Err::<Frame, FrameError>(
                FrameError::InvalidDimensions {
                    expected: if config.width * config.height * format_bytes(config.format)
                        <= usize::MAX {
                        (config.width * config.height * format_bytes(config.format)) as usize
                    } else {
                        usize::MAX
                    },
                    actual: config.data@.len() as usize,
                },
            ),
            r matches Ok(f) ==> f.wf() && f.data@ == config.data@ && f.width == config.width
                && f.height == config.height && f.format == config.format,
            r is Ok <==> config.width > 0 && config.height > 0 && config.data@.len()
                == config.width * config.height * format_bytes(config.format),
    {
        if config.width == 0 || config.height == 0 {
            return Err(FrameError::ZeroDimensions);
        }
        let bpp = config.format.bytes_per_pixel();
        proof {
            let w = config.width as int;
            let h = config.height as int;
            assert(w * h <= 0xffff_ffff * 0xffff_ffff) by (nonlinear_arith)
                requires
                    0 <= w <= 0xffff_ffff,
                    0 <= h <= 0xffff_ffff,
            ;
            assert(w * h * bpp <= 0xffff_ffff * 0xffff_ffff * 4) by (nonlinear_arith)
                requires
                    0 <= w * h <= 0xffff_ffff * 0xffff_ffff,
                    0 <= bpp <= 4,
            ;
        }
        let expected: u128 = (config.width as u128) * (config.height as u128) * (bpp as u128);
        let actual = config.data.len();
        if actual as u128 != expected {
            let shown: usize = if expected <= usize::MAX as u128 {
                expected as usize
            } else {
                usize::MAX
            };
            return Err(FrameError::InvalidDimensions { expected: shown, actual });
        }
        Ok(Frame { data: config.data, width: config.width, height: config.height, format: config.format })
    }

    /// The bytes of the pixel at `(x, y)`, or `None` outside the frame.
    pub fn get_pixel(&self, x: u32, y: u32) -> (r: Option<&[u8]>)
        requires
            self.wf(),
        ensures
            (x >= self.width || y >= self.height) <==> r is None,
            r matches Some(s) ==> s@ == self.data@.subrange(
                (y * self.width + x) * format_bytes(self.format),
                (y * self.width + x) * format_bytes(self.format) + format_bytes(self.format),
            ),
    {
        if x >= self.width || y >= self.height {
            return None;
        }
        let bytes_per_pixel = self.format.bytes_per_pixel() as usize;
        let len = self.data.len();
        proof {
            crate::raster::lemma_index_in_bounds(x as int, y as int, self.width as int, self.height as int);
            lemma_pixel_bytes(y * self.width + x, self.width * self.height, bytes_per_pixel as int);
        }
        let index: usize = ((y as usize) * (self.width as usize) + (x as usize)) * bytes_per_pixel;
        Some(vstd::slice::slice_subrange(self.data.as_slice(), index, index + bytes_per_pixel))
    }

    /// The R, G, B of pixel `p`, whatever the channel order.
    fn extract_rgb(&self, p: usize) -> (t: (u8, u8, u8))
        requires
            self.wf(),
            self.format != PixelFormat::HSV,
            p < pixel_count(*self),
        ensures
            t == rgb_at(*self, p as int),
    {
        let len = self.data.len();
        proof {
            lemma_pixel_bytes(p as int, pixel_count(*self), format_bytes(self.format) as int);
        }
        let at: usize = p * (self.format.bytes_per_pixel() as usize);
        match self.format {
            PixelFormat::RGB8 | PixelFormat::RGBA8 => (self.data[at], self.data[at + 1], self.data[at + 2]),
            PixelFormat::BGR8 => (self.data[at + 2], self.data[at + 1], self.data[at]),
            _ => (self.data[at], self.data[at], self.data[at]),
        }
    }

    /// Luminance of an RGB pixel.
    fn rgb_to_gray(r: u8, g: u8, b: u8) -> (y: u8)
        ensures
            y == gray_of(r as int, g as int, b as int),
    {
        ((299 * (r as u32) + 587 * (g as u32) + 114 * (b as u32)) / 1000) as u8
    }

    /// Converts an HSV pixel to RGB.
    fn hsv_to_rgb(h_byte: u8, s_byte: u8, v_byte: u8) -> (t: (u8, u8, u8))
        ensures
            rgb_int(t) == hsv_to_rgb_spec(h_byte as int, s_byte as int, v_byte as int),
    {
        let h = h_byte as u32;
        let s = s_byte as u32;
        let v = v_byte as u32;
        let t2 = (2 * h) % 170;
        let ramp: u32 = if t2 >= 85 {
            170 - t2
        } else {
            t2
        };
        proof {
            assert(v * s <= 255 * 255) by (nonlinear_arith)
                requires
                    v <= 255,
                    s <= 255,
            ;
            assert(v * s * ramp <= 255 * 255 * 85) by (nonlinear_arith)
                requires
                    v * s <= 255 * 255,
                    ramp <= 85,
            ;
            assert(v * (255 - s) <= 255 * 255) by (nonlinear_arith)
                requires
                    v <= 255,
                    s <= 255,
            ;
            assert(v * (255 - s) * 85 <= 255 * 255 * 85) by (nonlinear_arith)
                requires
                    v * (255 - s) <= 255 * 255,
            ;
        }
        let mid_num: u32 = v * s * ramp + v * (255 - s) * 85;
        let mid: u32 = (2 * mid_num + 255 * 85) / (2 * 255 * 85);
        let low_num: u32 = v * (255 - s);
        let low: u32 = (2 * low_num + 255) / (2 * 255);
        proof {
            assert(mid_num <= 255 * 255 * 85) by (nonlinear_arith)
                requires
                    mid_num == v * s * ramp + v * (255 - s) * 85,
                    ramp <= 85,
                    v <= 255,
                    s <= 255,
            ;
            assert(mid <= 255) by (nonlinear_arith)
                requires
                    mid == (2 * mid_num + 21675) / 43350int,
                    mid_num <= 255 * 255 * 85,
            ;
            assert(low <= 255) by (nonlinear_arith)
                requires
                    low == (2 * low_num + 255) / 510int,
                    low_num <= 255 * 255,
            ;
        }
        let c = v_byte;
        let x = mid as u8;
        let o = low as u8;
        let sector = (2 * h) / 85;
        if sector == 0 {
            (c, x, o)
        } else if sector == 1 {
            (x, c, o)
        } else if sector == 2 {
            (o, c, x)
        } else if sector == 3 {
            (o, x, c)
        } else if sector == 4 {
            (x, o, c)
        } else if sector == 5 {
            (c, o, x)
        } else {
            (o, o, o)
        }
    }
    /// The number of pixels, `width * height`.
    fn count(&self) -> (n: usize)
        requires
            self.wf(),
        ensures
            n == pixel_count(*self),
            n * format_bytes(self.format) == self.data@.len() <= usize::MAX,
    {
        let len = self.data.len();
        proof {
            let n = format_bytes(self.format) as int;
            assert(self.width * self.height <= self.width * self.height * n) by (nonlinear_arith)
                requires
                    n >= 1,
                    self.width * self.height >= 0,
            ;
            assert(self.width * self.height <= 0xffff_ffff * 0xffff_ffff) by (nonlinear_arith)
                requires
                    self.width <= 0xffff_ffff,
                    self.height <= 0xffff_ffff,
            ;
        }
        (self.width as usize) * (self.height as usize)
    }

    /// The frame in 8-bit grayscale: gray frames are copied, HSV frames
    /// keep their V channel, others take the luminance of each pixel.
    pub fn to_grayscale(&self) -> (r: Frame)
        requires
            self.wf(),
        ensures
            r.wf(),
            r.format == PixelFormat::GRAY8,
            r.width == self.width,
            r.height == self.height,
            forall|p: int| 0 <= p < pixel_count(*self) ==> #[trigger] r.data@[p] as int == gray_pixel(*self, p),
    {
        let n = self.count();
        let mut data: Vec<u8> = Vec::new();
        let mut p: usize = 0;
        while p < n
            invariant
                self.wf(),
                n == pixel_count(*self),
                p <= n,
                data@.len() == p,
                forall|q: int| 0 <= q < p ==> #[trigger] data@[q] as int == gray_pixel(*self, q),
                n * format_bytes(self.format) == self.data@.len() <= usize::MAX,
            decreases n - p,
        {
            let g: u8 = match self.format {
                PixelFormat::GRAY8 => self.data[p],
                PixelFormat::HSV => self.data[3 * p + 2],
                _ => {
                    let (r, g, b) = self.extract_rgb(p);
                    Frame::rgb_to_gray(r, g, b)
                },
            };
            data.push(g);
            p = p + 1;
        }
        assert(self.width * self.height * 1 == pixel_count(*self));
        Frame { data, width: self.width, height: self.height, format: PixelFormat::GRAY8 }
    }

    /// The frame in HSV: HSV frames are copied, gray pixels become
    /// `(0, 0, gray)`, others are converted with `rgb_to_hsv`.
    pub fn to_hsv(&self) -> (r: Frame)
        requires
            self.wf(),
        ensures
            r.wf(),
            r.format == PixelFormat::HSV,
            r.width == self.width,
            r.height == self.height,
            laid_out(r.data@, |p: int| hsv_pixel(*self, p), pixel_count(*self)),
    {
        let n = self.count();
        let ghost pix = |p: int| hsv_pixel(*self, p);
        let mut data: Vec<u8> = Vec::new();
        let mut p: usize = 0;
        while p < n
            invariant
                self.wf(),
                n == pixel_count(*self),
                n * format_bytes(self.format) == self.data@.len() <= usize::MAX,
                p <= n,
                pix == (|q: int| hsv_pixel(*self, q)),
                laid_out(data@, pix, p as int),
            decreases n - p,
        {
            let t: (u8, u8, u8) = match self.format {
                PixelFormat::HSV => (self.data[3 * p], self.data[3 * p + 1], self.data[3 * p + 2]),
                PixelFormat::GRAY8 => (0, 0, self.data[p]),
                _ => {
                    let (r, g, b) = self.extract_rgb(p);
                    rgb_to_hsv(r, g, b)
                },
            };
            proof {
                lemma_push_pixel(data@, pix, p as int, t);
            }
            push_pixel(&mut data, t);
            p = p + 1;
        }
        proof {
            assert(3 * pixel_count(*self) == self.width * self.height * 3);
        }
        Frame { data, width: self.width, height: self.height, format: PixelFormat::HSV }
    }

    /// The frame in 8-bit RGB: RGB frames are copied, HSV pixels are
    /// converted with `hsv_to_rgb`, gray pixels repeat their byte, and the
    /// other formats are reordered and lose their alpha byte.
    pub fn to_rgb8(&self) -> (r: Frame)
        requires
            self.wf(),
        ensures
            r.wf(),
            r.format == PixelFormat::RGB8,
            r.width == self.width,
            r.height == self.height,
            laid_out(r.data@, |p: int| rgb8_pixel(*self, p), pixel_count(*self)),
    {
        let n = self.count();
        let ghost pix = |p: int| rgb8_pixel(*self, p);
        let mut data: Vec<u8> = Vec::new();
        let mut p: usize = 0;
        while p < n
            invariant
                self.wf(),
                n == pixel_count(*self),
                n * format_bytes(self.format) == self.data@.len() <= usize::MAX,
                p <= n,
                pix == (|q: int| rgb8_pixel(*self, q)),
                laid_out(data@, pix, p as int),
            decreases n - p,
        {
            let t: (u8, u8, u8) = match self.format {
                PixelFormat::HSV => Frame::hsv_to_rgb(self.data[3 * p], self.data[3 * p + 1], self.data[3 * p + 2]),
                _ => self.extract_rgb(p),
            };
            proof {
                lemma_push_pixel(data@, pix, p as int, t);
            }
            push_pixel(&mut data, t);
            p = p + 1;
        }
        proof {
            assert(3 * pixel_count(*self) == self.width * self.height * 3);
        }
        Frame { data, width: self.width, height: self.height, format: PixelFormat::RGB8 }
    }

    /// Each pixel packed as `0x00RRGGBB`.
    pub fn frame_to_u32(&self) -> (r: Vec<u32>)
        requires
            self.wf(),
        ensures
            r@.len() == pixel_count(*self),
            forall|p: int| 0 <= p < pixel_count(*self) ==> #[trigger] r@[p] as int == pack(rgb8_pixel(*self, p)),
    {
        let rgb = self.to_rgb8();
        let rlen = rgb.data.len();
        let n = self.count();
        let ghost pix = |p: int| rgb8_pixel(*self, p);
        let mut out: Vec<u32> = Vec::new();
        let mut p: usize = 0;
        while p < n
            invariant
                n == pixel_count(*self),
                n * format_bytes(self.format) == self.data@.len() <= usize::MAX,
                p <= n,
                pix == (|q: int| rgb8_pixel(*self, q)),
                laid_out(rgb.data@, pix, n as int),
                rlen == rgb.data@.len(),
                out@.len() == p,
                forall|q: int| 0 <= q < p ==> #[trigger] out@[q] as int == pack(rgb8_pixel(*self, q)),
            decreases n - p,
        {
            let r = rgb.data[3 * p] as u32;
            let g = rgb.data[3 * p + 1] as u32;
            let b = rgb.data[3 * p + 2] as u32;
            proof {
                assert(rgb.data@[3 * p] as int == channel(pix((3 * p) / 3), (3 * p) % 3));
                assert(rgb.data@[3 * p + 1] as int == channel(pix((3 * p + 1) / 3), (3 * p + 1) % 3));
                assert(rgb.data@[3 * p + 2] as int == channel(pix((3 * p + 2) / 3), (3 * p + 2) % 3));
            }
            out.push(r * 65536 + g * 256 + b);
            p = p + 1;
        }
        out
    }
}

} // verus!
