//! Color corrections, from `smart_leds`.

use vstd::prelude::*;

use crate::util::RGB8;

verus! {

/// What `smart_leds::gamma` makes of one color channel.
pub uninterp spec fn gamma_corrected(channel: u8) -> u8;

/// `smart_leds::gamma` corrects the three channels of a color one by one, each by the same table.
#[verifier::external_body]
pub(crate) fn gamma(c: RGB8) -> (r: RGB8)
    ensures
        r.r == gamma_corrected(c.r),
        r.g == gamma_corrected(c.g),
        r.b == gamma_corrected(c.b),
{
    let pixel = smart_leds::RGB8 { r: c.r, g: c.g, b: c.b };
    match smart_leds::gamma(core::iter::once(pixel)).next() {
        Some(p) => RGB8 { r: p.r, g: p.g, b: p.b },
        None => c,
    }
}

/// A color channel under a brightness level.
pub open spec fn dimmed(channel: u8, level: u8) -> int {
    channel as int * (level + 1) / 256
}

/// `smart_leds::brightness` scales the three channels of a color by `(level + 1) / 256`,
/// rounded down.
#[verifier::external_body]
pub(crate) fn brightness(c: RGB8, level: u8) -> (r: RGB8)
    ensures
        r.r == dimmed(c.r, level),
        r.g == dimmed(c.g, level),
        r.b == dimmed(c.b, level),
{
    let pixel = smart_leds::RGB8 { r: c.r, g: c.g, b: c.b };
    match smart_leds::brightness(core::iter::once(pixel), level).next() {
        Some(p) => RGB8 { r: p.r, g: p.g, b: p.b },
        None => c,
    }
}

/// What `smart_leds::hsv::hsv2rgb` makes of a hue, a saturation and a value.
pub uninterp spec fn rgb_of_hsv(hue: u8, sat: u8, val: u8) -> (u8, u8, u8);

/// `smart_leds::hsv::hsv2rgb` converts a color; the result depends on the three numbers alone.
#[verifier::external_body]
pub(crate) fn hsv2rgb(hue: u8, sat: u8, val: u8) -> (r: RGB8)
    ensures
        (r.r, r.g, r.b) == rgb_of_hsv(hue, sat, val),
{
    let p = smart_leds::hsv::hsv2rgb(smart_leds::hsv::Hsv { hue, sat, val });
    RGB8 { r: p.r, g: p.g, b: p.b }
}

} // verus!
