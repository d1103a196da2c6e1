//! Colors of vehicles and disruptions.

use vstd::prelude::*;

use crate::outside::colors;
use crate::util::RGB8;

verus! {

/// A color as hue, saturation and value.
#[derive(Debug, Copy, Clone, PartialEq, Eq, Structural)]
pub struct Hsv {
    pub hue: u8,
    pub sat: u8,
    pub val: u8,
}

/// The largest of the three channels.
pub open spec fn max_channel(c: RGB8) -> u8 {
    if c.r >= c.g && c.r >= c.b {
        c.r
    } else if c.g >= c.b {
        c.g
    } else {
        c.b
    }
}

/// The smallest of the three channels.
pub open spec fn min_channel(c: RGB8) -> u8 {
    if c.r <= c.g && c.r <= c.b {
        c.r
    } else if c.g <= c.b {
        c.g
    } else {
        c.b
    }
}

/// Quotient rounded toward zero.
pub open spec fn rounded_quotient(a: int, b: int) -> int {
    if a >= 0 {
        a / b
    } else {
        -((-a) / b)
    }
}

/// Angle of a color that is not gray, 43 to each sixth of the circle. It counts from the sector of
/// the largest channel, red first, by the difference of the two others.
pub open spec fn hue_angle(c: RGB8) -> int {
    let max = max_channel(c);
    let delta = max - min_channel(c);
    if max == c.r {
        rounded_quotient((c.g - c.b) * 43, delta)
    } else if max == c.g {
        86 + rounded_quotient((c.b - c.r) * 43, delta)
    } else {
        172 + rounded_quotient((c.r - c.g) * 43, delta)
    }
}

/// A number from 0 to 65535 as its 16 bits read with a sign.
pub open spec fn signed16(x: int) -> int {
    if x >= 0x8000 {
        x - 0x10000
    } else {
        x
    }
}

/// How far the smallest channel lies below the largest one, `max`, of 255. The product is one of 16
/// bits with a sign: of a difference above 128 the result is that of the wrapped product.
pub open spec fn saturation(delta: int, max: int) -> u8 {
    (rounded_quotient(signed16(delta * 255), max) % 256) as u8
}

/// A color as hue, saturation and value: the value is the largest channel, the saturation how far
/// the smallest lies below it, and the hue the angle on a circle of 256.
pub open spec fn hsv_of(c: RGB8) -> Hsv {
    let max = max_channel(c);
    let delta = max - min_channel(c);
    Hsv {
        hue: if delta == 0 {
            0
        } else if hue_angle(c) < 0 {
            (hue_angle(c) + 256) as u8
        } else {
            hue_angle(c) as u8
        },
        sat: if max == 0 {
            0
        } else {
            saturation(delta, max as int)
        },
        val: max,
    }
}

/// `diff * 43 / delta`, rounded toward zero.
fn sixth(diff: i32, delta: i32) -> (q: i32)
    requires
        0 < delta <= 255,
        -delta <= diff <= delta,
    ensures
        q == rounded_quotient(diff * 43, delta as int),
        -43 <= q <= 43,
{
    let size: i32 = if diff < 0 {
        -diff
    } else {
        diff
    };
    let q: i32 = size * 43 / delta;
    assert(0 <= q <= 43) by (nonlinear_arith)
        requires
            q == (size * 43) / (delta as int),
            0 <= size <= delta,
            0 < delta,
    ;
    if diff < 0 {
        assert((-diff) * 43 == -(diff * 43));
        -q
    } else {
        q
    }
}

fn get_saturation(delta: i32, max: i32) -> (s: u8)
    requires
        0 <= delta <= max <= 255,
        0 < max,
    ensures
        s == saturation(delta as int, max as int),
{
    let product: i32 = delta * 255;
    if product < 0x8000 {
        assert(0 <= (product as int) / (max as int) <= 0x8000) by (nonlinear_arith)
            requires
                0 <= product < 0x8000,
                0 < max,
        ;
        (product / max % 256) as u8
    } else {
        let size: i32 = 0x10000 - product;
        assert(0 <= (size as int) / (max as int) <= 0x8000) by (nonlinear_arith)
            requires
                0 <= size <= 0x8000,
                0 < max,
        ;
        let below: i32 = size / max % 256;
        ((256 - below) % 256) as u8
    }
}

pub fn rgb2hsv(rgb: RGB8) -> (hsv: Hsv)
    ensures
        hsv == hsv_of(rgb),
{
    let r: i32 = rgb.r as i32;
    let g: i32 = rgb.g as i32;
    let b: i32 = rgb.b as i32;
    let max: i32 = if r >= g && r >= b {
        r
    } else if g >= b {
        g
    } else {
        b
    };
    let min: i32 = if r <= g && r <= b {
        r
    } else if g <= b {
        g
    } else {
        b
    };
    let delta: i32 = max - min;
    let sat: u8 = if max == 0 {
        0
    } else {
        get_saturation(delta, max)
    };
    let hue: u8 = if delta == 0 {
        0
    } else {
        let angle: i32 = if max == r {
            sixth(g - b, delta)
        } else if max == g {
            86 + sixth(b - r, delta)
        } else {
            172 + sixth(r - g, delta)
        };
        if angle < 0 {
            (angle + 256) as u8
        } else {
            angle as u8
        }
    };
    Hsv { hue, sat, val: max as u8 }
}

/// A gray has no hue and no saturation, and its value is its channels'.
pub proof fn lemma_hsv_of_gray(level: u8)
    ensures
        hsv_of(RGB8 { r: level, g: level, b: level }) == (Hsv { hue: 0, sat: 0, val: level }),
{
    if level > 0 {
        assert(0int * 255 / level as int == 0) by (nonlinear_arith)
            requires
                level > 0,
        ;
    }
}

/// Converts a color back.
pub fn rgb_from_hsv(hsv: Hsv) -> (rgb: RGB8)
    ensures
        (rgb.r, rgb.g, rgb.b) == colors::rgb_of_hsv(hsv.hue, hsv.sat, hsv.val),
{
    colors::hsv2rgb(hsv.hue, hsv.sat, hsv.val)
}

/// The nearest number that a channel can hold.
pub open spec fn channel(x: int) -> u8 {
    if x < 0 {
        0
    } else if x > 255 {
        255
    } else {
        x as u8
    }
}

fn to_channel(x: i64) -> (c: u8)
    ensures
        c == channel(x as int),
{
    if x < 0 {
        0
    } else if x > 255 {
        255
    } else {
        x as u8
    }
}

/// A color made warmer by a positive shift, and colder by a negative one: red gains the shift,
/// green gains half of it, and blue loses it.
pub open spec fn shifted(c: RGB8, temp_shift: i32) -> RGB8 {
    RGB8 {
        r: channel(c.r + temp_shift),
        g: channel(c.g + rounded_quotient(temp_shift as int, 2)),
        b: channel(c.b - temp_shift),
    }
}

pub fn adjust_color_temp(color: RGB8, temp_shift: i32) -> (c: RGB8)
    ensures
        c == shifted(color, temp_shift),
{
    let shift: i64 = temp_shift as i64;
    let half: i64 = shift / 2;
    RGB8 {
        r: to_channel(color.r as i64 + shift),
        g: to_channel(color.g as i64 + half),
        b: to_channel(color.b as i64 - shift),
    }
}

/// Without a shift a color stays as it is.
pub proof fn lemma_no_shift(c: RGB8)
    ensures
        shifted(c, 0) == c,
{
}

/// How a color comes about.
#[derive(Debug, Copy, Clone, PartialEq, Eq, Structural)]
pub enum ColorPlan {
    Fixed(RGB8),
    /// As far from one color to another as `part` is of `whole`, or as far back if `reversed`.
    Blend { from: Hsv, to: Hsv, part: u64, whole: u64, reversed: bool },
}

/// The value of a color is its largest channel. Up to half of the full range between the largest
/// and the smallest channel, the saturation is how much of the largest that is, of 255.
pub proof fn lemma_value_and_saturation(c: RGB8)
    ensures
        ({
            let hsv = hsv_of(c);
            let smallest = min_channel(c);
            let delta = hsv.val - smallest;
            &&& hsv.val >= c.r && hsv.val >= c.g && hsv.val >= c.b
            &&& hsv.val == c.r || hsv.val == c.g || hsv.val == c.b
            &&& smallest <= c.r && smallest <= c.g && smallest <= c.b
            &&& smallest == c.r || smallest == c.g || smallest == c.b
            &&& hsv.val == 0 ==> hsv.sat == 0
            &&& hsv.val > 0 && delta <= 128 ==> hsv.sat * hsv.val <= delta * 255 < (hsv.sat + 1)
                * hsv.val
        }),
{
    let max = max_channel(c) as int;
    let delta = max - min_channel(c);
    if max > 0 && delta <= 128 {
        let q = (delta * 255) / max;
        assert(0 <= q <= 255 && q * max <= delta * 255 < (q + 1) * max) by (nonlinear_arith)
            requires
                q == (delta * 255) / max,
                0 <= delta <= max,
                max > 0,
        ;
    }
}

/// The hue of a color counts from 0 for red, 86 for green and 172 for blue, as its largest channel
/// is, on a circle of 256: up to 43 on, toward the next of these, as the second largest channel
/// belongs to the next, and as much back toward the one before.
pub proof fn lemma_hue(c: RGB8)
    requires
        !(c.r == c.g && c.g == c.b),
    ensures
        ({
            let hue = hsv_of(c).hue as int;
            let delta = max_channel(c) - min_channel(c);
            let is_on = |diff: int, steps: int|
                {
                    &&& diff >= 0 ==> steps * delta <= diff * 43 < (steps + 1) * delta
                    &&& diff <= 0 ==> -steps * delta <= -diff * 43 < (-steps + 1) * delta
                };
            let signed = if hue >= 128 {
                hue - 256
            } else {
                hue
            };
            &&& c.r >= c.g && c.r >= c.b ==> is_on(c.g - c.b, signed)
            &&& c.g > c.r && c.g >= c.b ==> is_on(c.b - c.r, hue - 86)
            &&& c.b > c.r && c.b > c.g ==> is_on(c.r - c.g, hue - 172)
        }),
{
    let delta = max_channel(c) - min_channel(c);
    lemma_sixth(c.g - c.b, delta);
    lemma_sixth(c.b - c.r, delta);
    lemma_sixth(c.r - c.g, delta);
}

proof fn lemma_sixth(diff: int, delta: int)
    requires
        0 < delta,
        -delta <= diff <= delta,
    ensures
        ({
            let q = rounded_quotient(diff * 43, delta);
            &&& -43 <= q <= 43
            &&& diff >= 0 ==> 0 <= q && q * delta <= diff * 43 < (q + 1) * delta
            &&& diff <= 0 ==> q <= 0 && -q * delta <= -diff * 43 < (-q + 1) * delta
        }),
{
    let size = if diff >= 0 {
        diff
    } else {
        -diff
    };
    let k = (size * 43) / delta;
    assert(0 <= k <= 43 && k * delta <= size * 43 < (k + 1) * delta) by (nonlinear_arith)
        requires
            k == (size * 43) / delta,
            0 <= size <= delta,
            0 < delta,
    ;
    if diff < 0 {
        assert(-(diff * 43) == size * 43);
    }
}

/// A shift to warm colors raises red by as much as it is, green by half of that and lowers blue by
/// as much, each as far as the channel goes. A shift to cold ones does the opposite.
pub proof fn lemma_color_temp(c: RGB8, temp_shift: i32)
    ensures
        ({
            let after = shifted(c, temp_shift);
            let goes_to = |out: u8, x: int|
                {
                    &&& 0 <= x <= 255 ==> out == x
                    &&& x < 0 ==> out == 0
                    &&& x > 255 ==> out == 255
                };
            &&& goes_to(after.r, c.r + temp_shift)
            &&& goes_to(after.b, c.b - temp_shift)
            &&& temp_shift % 2 == 0 ==> forall|half: int|
                half * 2 == temp_shift ==> #[trigger] goes_to(after.g, c.g + half)
            &&& temp_shift >= 0 ==> after.r >= c.r && after.g >= c.g && after.b <= c.b
            &&& temp_shift <= 0 ==> after.r <= c.r && after.g <= c.g && after.b >= c.b
            &&& -1 <= temp_shift <= 1 ==> after.g == c.g
        }),
{
}

} // verus!
