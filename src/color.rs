use vstd::prelude::*;

verus! {

/// An inclusive HSV band: a pixel passes when every channel lies between
/// the matching `lower` and `upper` bytes. Hue wrap-around is not handled.
pub struct ColorRange {
    pub lower: [u8; 3],
    pub upper: [u8; 3],
}

/// Division of a non-negative numerator rounded to the nearest integer,
/// halves rounded up.
pub open spec fn round_div(n: int, d: int) -> int {
    (2 * n + d) / (2 * d)
}

pub open spec fn max3(r: int, g: int, b: int) -> int {
    if r >= g && r >= b {
        r
    } else if g >= b {
        g
    } else {
        b
    }
}

pub open spec fn min3(r: int, g: int, b: int) -> int {
    if r <= g && r <= b {
        r
    } else if g <= b {
        g
    } else {
        b
    }
}

/// Hue angle scaled so that a full turn is 255, rounded. The channel that
/// holds the maximum is looked for in the order red, green, blue.
pub open spec fn hue_byte(r: int, g: int, b: int) -> int {
    let hi = max3(r, g, b);
    let d = hi - min3(r, g, b);
    if d == 0 {
        0
    } else if hi == r {
        if g >= b {
            round_div(255 * (g - b), 6 * d)
        } else {
            round_div(255 * (6 * d + g - b), 6 * d)
        }
    } else if hi == g {
        round_div(255 * (b - r + 2 * d), 6 * d)
    } else {
        round_div(255 * (r - g + 4 * d), 6 * d)
    }
}

/// Saturation `(max - min) / max` scaled to a byte and rounded; 0 for black.
pub open spec fn saturation_byte(r: int, g: int, b: int) -> int {
    let hi = max3(r, g, b);
    if hi == 0 {
        0
    } else {
        round_div(255 * (hi - min3(r, g, b)), hi)
    }
}

/// Value: the largest channel.
pub open spec fn value_byte(r: int, g: int, b: int) -> int {
    max3(r, g, b)
}

pub open spec fn band_contains(lower: [u8; 3], upper: [u8; 3], h: int, s: int, v: int) -> bool {
    &&& lower[0] <= h <= upper[0]
    &&& lower[1] <= s <= upper[1]
    &&& lower[2] <= v <= upper[2]
}

/// The band test applied to the HSV form of an RGB pixel.
pub open spec fn rgb_in_band(lower: [u8; 3], upper: [u8; 3], r: int, g: int, b: int) -> bool {
    band_contains(lower, upper, hue_byte(r, g, b), saturation_byte(r, g, b), value_byte(r, g, b))
}

impl ColorRange {
    pub fn in_range(&self, h: u8, s: u8, v: u8) -> (r: bool)
        ensures
            r == band_contains(self.lower, self.upper, h as int, s as int, v as int),
    {
        h >= self.lower[0] && h <= self.upper[0] && s >= self.lower[1] && s <= self.upper[1]
            && v >= self.lower[2] && v <= self.upper[2]
    }
}

fn round_div_u32(n: u32, d: u32) -> (q: u32)
    requires
        d > 0,
        n <= 255 * 6 * 255,
        d <= 6 * 255,
    ensures
        q == round_div(n as int, d as int),
        n <= 255 * d ==> q <= 255,
{
    proof {
        if n <= 255 * d {
            assert((2 * n + d) / (2 * d) <= 255) by (nonlinear_arith)
                requires
                    n <= 255 * d,
                    d > 0,
            ;
        }
    }
    (2 * n + d) / (2 * d)
}

/// Converts an RGB pixel to hue, saturation and value bytes.
pub fn rgb_to_hsv(r: u8, g: u8, b: u8) -> (hsv: (u8, u8, u8))
    ensures
        hsv.0 == hue_byte(r as int, g as int, b as int),
        hsv.1 == saturation_byte(r as int, g as int, b as int),
        hsv.2 == value_byte(r as int, g as int, b as int),
{
    let (r, g, b) = (r as u32, g as u32, b as u32);
    let hi: u32 = if r >= g && r >= b {
        r
    } else if g >= b {
        g
    } else {
        b
    };
    let lo: u32 = if r <= g && r <= b {
        r
    } else if g <= b {
        g
    } else {
        b
    };
    let d: u32 = hi - lo;
    let h: u32 = if d == 0 {
        0
    } else if hi == r {
        if g >= b {
            round_div_u32(255 * (g - b), 6 * d)
        } else {
            round_div_u32(255 * (6 * d + g - b), 6 * d)
        }
    } else if hi == g {
        round_div_u32(255 * (b + 2 * d - r), 6 * d)
    } else {
        round_div_u32(255 * (r + 4 * d - g), 6 * d)
    };
    let s: u32 = if hi == 0 {
        0
    } else {
        round_div_u32(255 * d, hi)
    };
    (h as u8, s as u8, hi as u8)
}

} // verus!
