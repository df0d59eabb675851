//! The colour transform from one luma and chroma sample to one RGB pixel.
//!
//! The transform is the BT.601 one with decimal coefficients:
//!
//! ```text
//! R = Y + 1.402  (V - 128)
//! G = Y - 0.3441 (U - 128) - 0.7141 (V - 128)
//! B = Y + 1.772  (U - 128)
//! ```
//!
//! Each channel is computed exactly, as a fraction over a power of ten, then
//! cut to a whole number toward zero and held to the range of a byte: a value
//! below 0 becomes 0 and one above 255 becomes 255.

use vstd::prelude::*;
use crate::format::Yuv;

verus! {

/// One packed pixel.
#[derive(Clone, Copy, Debug, PartialEq, Eq, Structural)]
pub struct Pixel {
    pub red: u8,
    pub green: u8,
    pub blue: u8,
}

impl Pixel {
    /// A pixel from its three channels.
    pub fn new(red: u8, green: u8, blue: u8) -> (p: Pixel)
        ensures
            p == (Pixel { red, green, blue }),
    {
        Pixel { red, green, blue }
    }
}

/// The fraction `num / den` as a byte: cut toward zero, then held to `0..=255`.
pub open spec fn narrow(num: int, den: int) -> u8
    recommends
        den > 0,
{
    if num <= 0 {
        0u8
    } else if num / den >= 255 {
        255u8
    } else {
        (num / den) as u8
    }
}

/// Thousand times the red channel before narrowing.
pub open spec fn red_scaled(s: Yuv) -> int {
    1000 * s.y + 1402 * (s.v - 128)
}

/// Ten thousand times the green channel before narrowing.
pub open spec fn green_scaled(s: Yuv) -> int {
    10000 * s.y - 3441 * (s.u - 128) - 7141 * (s.v - 128)
}

/// Thousand times the blue channel before narrowing.
pub open spec fn blue_scaled(s: Yuv) -> int {
    1000 * s.y + 1772 * (s.u - 128)
}

/// The pixel that a sample stands for.
pub open spec fn rgb_of(s: Yuv) -> Pixel {
    Pixel {
        red: narrow(red_scaled(s), 1000),
        green: narrow(green_scaled(s), 10000),
        blue: narrow(blue_scaled(s), 1000),
    }
}

/// A sample without colour, both chroma values at their centre of 128, is a
/// grey pixel with all three channels at the luma value. Mid-grey luma 128
/// gives the pixel (128, 128, 128).
pub proof fn lemma_neutral_chroma_is_grey(s: Yuv)
    requires
        s.u == 128,
        s.v == 128,
    ensures
        rgb_of(s) == (Pixel { red: s.y, green: s.y, blue: s.y }),
        s.y == 128 ==> rgb_of(s) == (Pixel { red: 128, green: 128, blue: 128 }),
{
}

/// Cuts the fraction `num / den` to a byte.
fn narrow_channel(num: i32, den: i32) -> (c: u8)
    requires
        den > 0,
    ensures
        c == narrow(num as int, den as int),
{
    if num <= 0 {
        0
    } else {
        let whole: i32 = num / den;
        if whole >= 255 {
            255
        } else {
            whole as u8
        }
    }
}

/// Transforms one sample into its pixel.
pub fn yuv_to_rgb(s: Yuv) -> (p: Pixel)
    ensures
        p == rgb_of(s),
{
    let y: i32 = s.y as i32;
    let du: i32 = s.u as i32 - 128;
    let dv: i32 = s.v as i32 - 128;
    Pixel {
        red: narrow_channel(1000 * y + 1402 * dv, 1000),
        green: narrow_channel(10000 * y - 3441 * du - 7141 * dv, 10000),
        blue: narrow_channel(1000 * y + 1772 * du, 1000),
    }
}

} // verus!
