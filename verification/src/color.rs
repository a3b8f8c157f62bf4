//! From the sum of a pixel's samples to the text of the pixel in a plain
//! PPM image.
//!
//! Each channel of the sum is divided by the number of samples, corrected
//! for a gamma of two by a square root, brought into the interval from zero
//! to `0.999` and scaled to a whole number from 0 to 255.
use crate::fixed::{
    clamp_raw, lemma_sat_div_monotonic, lemma_sat_mul_monotonic, lemma_sat_sqrt_monotonic,
    lemma_trunc_div_monotonic, sat_div, sat_mul, sat_sqrt, whole_part, Fixed, ONE_RAW,
};
use crate::rtweekend;
use crate::rtweekend::clamped;
use crate::Color3;
use vstd::prelude::*;

verus! {

/// The raw integer of `0.999`, rounded down: the largest level of a channel.
pub const CEILING_RAW: i64 = 4_290_672_328;

/// The level of a channel, from zero to `0.999`: the square root of the mean
/// of the samples, brought into that interval.
pub open spec fn channel_level(sum: int, samples: int) -> int {
    clamped(sat_sqrt(sat_div(sum, clamp_raw(samples * ONE_RAW))), 0, CEILING_RAW as int)
}

/// The value of a channel, from 0 to 255: 256 times its level, rounded down.
pub open spec fn channel_value(sum: int, samples: int) -> int {
    whole_part(sat_mul(256 * ONE_RAW, channel_level(sum, samples)))
}

/// The decimal digits of `n` in ASCII, without leading zeros.
pub open spec fn decimal(n: nat) -> Seq<u8>
    decreases n,
{
    if n < 10 {
        seq![(48 + n) as u8]
    } else {
        decimal(n / 10).push((48 + n % 10) as u8)
    }
}

/// The text of a pixel: its three values in decimal, separated by spaces.
pub open spec fn pixel_text(red: nat, green: nat, blue: nat) -> Seq<u8> {
    decimal(red) + seq![32u8] + decimal(green) + seq![32u8] + decimal(blue)
}

/// The header of a plain PPM image of the given size, without the line
/// break that ends it: the two characters that name the format, then the
/// width and the height, then the largest value of a channel, 255.
pub open spec fn header_text(width: nat, height: nat) -> Seq<u8> {
    seq![80u8, 51u8, 10u8] + decimal(width) + seq![32u8] + decimal(height) + seq![
        10u8,
        50u8,
        53u8,
        53u8,
    ]
}

/// A brighter sum never gives a darker channel: for one number of samples,
/// the level and the value of a channel do not decrease when the sum grows.
pub proof fn lemma_channel_monotonic(low: int, high: int, samples: int)
    requires
        low <= high,
        0 <= samples,
    ensures
        channel_level(low, samples) <= channel_level(high, samples),
        channel_value(low, samples) <= channel_value(high, samples),
{
    let count = clamp_raw(samples * ONE_RAW);
    assert(0 <= samples * ONE_RAW) by (nonlinear_arith)
        requires
            0 <= samples,
    ;
    lemma_sat_div_monotonic(low, high, count);
    lemma_sat_sqrt_monotonic(sat_div(low, count), sat_div(high, count));
    let dark = channel_level(low, samples);
    let bright = channel_level(high, samples);
    lemma_sat_mul_monotonic(256 * ONE_RAW, dark, bright);
    lemma_trunc_div_monotonic(
        sat_mul(256 * ONE_RAW, dark),
        sat_mul(256 * ONE_RAW, bright),
        ONE_RAW as int,
    );
}

/// The value of a channel whose samples add up to `sum`.
pub fn channel(sum: Fixed, samples_per_pixel: u32) -> (r: u8)
    ensures
        r as int == channel_value(sum@, samples_per_pixel as int),
{
    let mean: Fixed = sum / Fixed::from_int(samples_per_pixel as i64);
    let level: Fixed = rtweekend::clamp(
        mean.sqrt(),
        Fixed::zero(),
        Fixed::from_raw(CEILING_RAW),
    );
    let scaled: Fixed = Fixed::from_int(256) * level;
    assert(scaled@ == 256 * level@) by {
        assert(256 * ONE_RAW * level@ == (256 * level@) * ONE_RAW) by (nonlinear_arith);
        vstd::arithmetic::div_mod::lemma_div_multiples_vanish(256 * level@, ONE_RAW as int);
    }
    let value: i64 = scaled.trunc();
    assert(0 <= scaled@ <= 256 * CEILING_RAW);
    assert(0 <= scaled@ / 0x1_0000_0000 <= 255);
    value as u8
}

/// Appends the decimal digits of `n` to `out`.
fn push_decimal(out: &mut Vec<u8>, n: u32)
    ensures
        final(out)@ == old(out)@ + decimal(n as nat),
    decreases n,
{
    if n >= 10 {
        push_decimal(out, n / 10);
    }
    let digit: u8 = (n % 10) as u8;
    out.push(48 + digit);
    proof {
        if n >= 10 {
            assert(final(out)@ =~= old(out)@ + decimal(n as nat));
        } else {
            assert(final(out)@ =~= old(out)@ + decimal(n as nat));
        }
    }
}

/// The text of the pixel whose samples add up to `pixel_color`: the values
/// of its red, green and blue channels in decimal, separated by spaces.
pub fn write_color(pixel_color: Color3, samples_per_pixel: u32) -> (r: Vec<u8>)
    ensures
        r@ == pixel_text(
            channel_value(pixel_color@.x, samples_per_pixel as int) as nat,
            channel_value(pixel_color@.y, samples_per_pixel as int) as nat,
            channel_value(pixel_color@.z, samples_per_pixel as int) as nat,
        ),
{
    let red: u8 = channel(pixel_color.x(), samples_per_pixel);
    let green: u8 = channel(pixel_color.y(), samples_per_pixel);
    let blue: u8 = channel(pixel_color.z(), samples_per_pixel);
    let mut out: Vec<u8> = Vec::new();
    push_decimal(&mut out, red as u32);
    out.push(32);
    push_decimal(&mut out, green as u32);
    out.push(32);
    push_decimal(&mut out, blue as u32);
    assert(out@ =~= pixel_text(red as nat, green as nat, blue as nat));
    out
}

/// The header of a plain PPM image of the given size.
pub fn ppm_header(width: u32, height: u32) -> (r: Vec<u8>)
    ensures
        r@ == header_text(width as nat, height as nat),
{
    let mut out: Vec<u8> = Vec::new();
    out.push(80);
    out.push(51);
    out.push(10);
    push_decimal(&mut out, width);
    out.push(32);
    push_decimal(&mut out, height);
    out.push(10);
    out.push(50);
    out.push(53);
    out.push(53);
    assert(out@ =~= header_text(width as nat, height as nat));
    out
}

} // verus!
