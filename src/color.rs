//! The last step of the color output transform. A channel is averaged over
//! its samples, gamma corrected and scaled by 256 before it gets here, and
//! its integer part is then held to `0..=255`: a value at or above 255
//! (a linear channel at or above 0.999) stays at the top of the range, and a
//! value below zero shows as zero.
use vstd::prelude::*;
use crate::ppm::Rgb;

verus! {

/// `x` held to the range `[min, max]`.
pub open spec fn clamp_spec(x: int, min: int, max: int) -> int {
    if x < min {
        min
    } else if x > max {
        max
    } else {
        x
    }
}

/// `x` held to the range `[min, max]`.
pub fn clamp(x: i64, min: i64, max: i64) -> (r: i64)
    requires
        min <= max,
    ensures
        r == clamp_spec(x as int, min as int, max as int),
        min <= r <= max,
        min <= x <= max ==> r == x,
{
    if x < min {
        min
    } else if x > max {
        max
    } else {
        x
    }
}

/// The 8-bit value of a channel whose scaled value has integer part
/// `scaled`.
pub fn channel_byte(scaled: i64) -> (r: u8)
    ensures
        r as int == clamp_spec(scaled as int, 0, 255),
{
    clamp(scaled, 0, 255) as u8
}

/// The pixel of three scaled channels.
pub fn pixel_of(red: i64, green: i64, blue: i64) -> (p: Rgb)
    ensures
        p.r as int == clamp_spec(red as int, 0, 255),
        p.g as int == clamp_spec(green as int, 0, 255),
        p.b as int == clamp_spec(blue as int, 0, 255),
{
    Rgb { r: channel_byte(red), g: channel_byte(green), b: channel_byte(blue) }
}

} // verus!
