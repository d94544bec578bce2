//! Colours with four 8-bit channels, and their scaling by a fixed-point factor.

use vstd::prelude::*;

verus! {

/// The factor one. Scale factors and light intensities are fixed-point
/// numbers counted in units of 2^-32, so a factor `f` stands for the rational
/// `f / UNIT`.
pub const UNIT: i64 = 0x1_0000_0000;

/// Half a unit, added before the division that rounds to the nearest integer.
pub const HALF_UNIT: i64 = 0x8000_0000;

/// A colour: red, green, blue and alpha, each in `0..=255`.
#[derive(Clone, Copy, Debug, PartialEq, Eq, Structural)]
pub struct Color {
    pub r: u8,
    pub g: u8,
    pub b: u8,
    pub a: u8,
}

/// `value` limited to the range of a channel.
pub open spec fn clamp_channel(value: int) -> int {
    if value < 0 {
        0
    } else if value > 255 {
        255
    } else {
        value
    }
}

/// The product of a channel and a factor, as the nearest integer (a half
/// rounds up).
pub open spec fn channel_product(channel: int, factor: int) -> int {
    (channel * factor + HALF_UNIT) / (UNIT as int)
}

/// A channel scaled by a factor and clamped to `0..=255`.
pub open spec fn scaled_channel(channel: int, factor: int) -> int {
    clamp_channel(channel_product(channel, factor))
}

impl Color {
    /// The colour with the given channels.
    pub fn new(r: u8, g: u8, b: u8, a: u8) -> (color: Color)
        ensures
            color == (Color { r, g, b, a }),
    {
        Color { r, g, b, a }
    }

    /// This colour with red, green and blue scaled by `factor`; alpha stays.
    pub open spec fn darkened(self, factor: int) -> Color {
        Color {
            r: scaled_channel(self.r as int, factor) as u8,
            g: scaled_channel(self.g as int, factor) as u8,
            b: scaled_channel(self.b as int, factor) as u8,
            a: self.a,
        }
    }
}

/// Every factor of 256 or more scales a channel as the factor 256 does: a
/// lit channel saturates, a dark one stays dark.
pub proof fn lemma_scaling_saturates(channel: int, factor: int)
    requires
        0 <= channel <= 255,
        factor >= 256 * UNIT,
    ensures
        scaled_channel(channel, factor) == if channel == 0 { 0int } else { 255int },
{
    if channel > 0 {
        assert(channel * factor >= factor) by (nonlinear_arith)
            requires
                channel >= 1,
                factor >= 0,
        ;
    } else {
        assert(channel * factor == 0) by (nonlinear_arith)
            requires
                channel == 0,
        ;
    }
}

/// No factor below or at zero leaves any light in a channel.
pub proof fn lemma_scaling_by_nonpositive(channel: int, factor: int)
    requires
        0 <= channel <= 255,
        factor <= 0,
    ensures
        scaled_channel(channel, factor) == 0,
{
    assert(channel * factor <= 0) by (nonlinear_arith)
        requires
            channel >= 0,
            factor <= 0,
    ;
}

/// Scales one channel.
fn scale_channel(channel: u8, factor: i64) -> (out: u8)
    ensures
        out == scaled_channel(channel as int, factor as int),
{
    if factor <= 0 {
        proof {
            lemma_scaling_by_nonpositive(channel as int, factor as int);
        }
        0
    } else if factor >= 256 * UNIT {
        proof {
            lemma_scaling_saturates(channel as int, factor as int);
        }
        if channel == 0 {
            0
        } else {
            255
        }
    } else {
        assert(channel * factor <= 255 * (256 * UNIT)) by (nonlinear_arith)
            requires
                0 <= channel <= 255,
                0 < factor < 256 * UNIT,
        ;
        assert(channel * factor >= 0) by (nonlinear_arith)
            requires
                0 <= channel,
                0 < factor,
        ;
        let product: u64 = channel as u64 * factor as u64;
        let rounded: u64 = (product + HALF_UNIT as u64) / (UNIT as u64);
        if rounded > 255 {
            255
        } else {
            rounded as u8
        }
    }
}

/// Scales the red, green and blue channels of `color` by `factor`, a
/// fixed-point number in units of 2^-32. Each product is rounded to the
/// nearest integer and clamped to `0..=255`; alpha is kept.
pub fn darken(color: Color, factor: i64) -> (out: Color)
    ensures
        out.r == scaled_channel(color.r as int, factor as int),
        out.g == scaled_channel(color.g as int, factor as int),
        out.b == scaled_channel(color.b as int, factor as int),
        out.a == color.a,
        out == color.darkened(factor as int),
{
    Color {
        r: scale_channel(color.r, factor),
        g: scale_channel(color.g, factor),
        b: scale_channel(color.b, factor),
        a: color.a,
    }
}

} // verus!
