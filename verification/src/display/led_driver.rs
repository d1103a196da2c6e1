//! Encodes colors as pulses for the LED strip.
//!
//! A bit is a high and a low pulse of 1.2 us together, 300 ns high for a zero and 900 ns high for a
//! one. A low pulse of more than 200 us resets the strip. A color is sent as green, red and blue,
//! highest bit first.

use vstd::prelude::*;

use crate::util::RGB8;

verus! {

/// A high pulse and the low pulse after it, in ticks of the clock. Both are empty at the end.
#[derive(Debug, Copy, Clone, PartialEq, Eq, Structural)]
pub struct PulseCode {
    pub high_ticks: u16,
    pub low_ticks: u16,
}

/// The pulses of a clock.
#[derive(Debug, Copy, Clone, PartialEq, Eq, Structural)]
pub struct Pulses {
    pub pulse_zero: PulseCode,
    pub pulse_one: PulseCode,
    pub pulse_reset: PulseCode,
}

/// Pulses of the given lengths in nanoseconds.
pub open spec fn pulse_ns(high_ns: int, low_ns: int, clock_mhz: u32) -> PulseCode {
    PulseCode {
        high_ticks: (high_ns * clock_mhz / 1000) as u16,
        low_ticks: (low_ns * clock_mhz / 1000) as u16,
    }
}

/// The pulses for a clock of `clock_mhz` megahertz.
pub fn ws2812_pulses(clock_mhz: u32) -> (p: Pulses)
    ensures
        p.pulse_zero == pulse_ns(300, 900, clock_mhz),
        p.pulse_one == pulse_ns(900, 300, clock_mhz),
        p.pulse_reset == pulse_ns(60_000, 200_000, clock_mhz),
{
    let mhz: u64 = clock_mhz as u64;
    Pulses {
        pulse_zero: PulseCode {
            high_ticks: (300 * mhz / 1000) as u16,
            low_ticks: (900 * mhz / 1000) as u16,
        },
        pulse_one: PulseCode {
            high_ticks: (900 * mhz / 1000) as u16,
            low_ticks: (300 * mhz / 1000) as u16,
        },
        pulse_reset: PulseCode {
            high_ticks: (60 * mhz) as u16,
            low_ticks: (200 * mhz) as u16,
        },
    }
}

/// Marks the end of a transmission.
pub open spec fn end_marker() -> PulseCode {
    PulseCode { high_ticks: 0, low_ticks: 0 }
}

/// The bit of a byte that is sent at place `pos`.
pub open spec fn mask_at(pos: int) -> u8 {
    if pos == 0 {
        128
    } else if pos == 1 {
        64
    } else if pos == 2 {
        32
    } else if pos == 3 {
        16
    } else if pos == 4 {
        8
    } else if pos == 5 {
        4
    } else if pos == 6 {
        2
    } else {
        1
    }
}

/// The byte of a color that is sent at place `pos`.
pub open spec fn byte_at(c: RGB8, pos: int) -> u8 {
    if pos == 0 {
        c.g
    } else if pos == 1 {
        c.r
    } else {
        c.b
    }
}

/// A color as pulses.
pub open spec fn encoded(pulses: Pulses, c: RGB8) -> Seq<PulseCode> {
    Seq::new(
        24,
        |i: int|
            if byte_at(c, i / 8) & mask_at(i % 8) != 0 {
                pulses.pulse_one
            } else {
                pulses.pulse_zero
            },
    ).push(end_marker())
}

/// Turns colors into pulses.
#[derive(Debug, Copy, Clone, PartialEq, Eq, Structural)]
pub struct LedDriver {
    pub pulses: Pulses,
}

impl LedDriver {
    pub fn new(pulses: Pulses) -> (d: Self)
        ensures
            d.pulses == pulses,
    {
        LedDriver { pulses }
    }

    pub fn encode_color(&self, color: RGB8) -> (r: Vec<PulseCode>)
        ensures
            r@ == encoded(self.pulses, color),
    {
        let masks: [u8; 8] = [128, 64, 32, 16, 8, 4, 2, 1];
        let bytes: [u8; 3] = [color.g, color.r, color.b];
        let mut r: Vec<PulseCode> = Vec::new();
        let mut i: usize = 0;
        while i < 24
            invariant
                i <= 24,
                masks@ == seq![128u8, 64, 32, 16, 8, 4, 2, 1],
                bytes@ == seq![color.g, color.r, color.b],
                r@ == encoded(self.pulses, color).take(i as int),
            decreases 24 - i,
        {
            let byte: u8 = bytes[i / 8];
            let mask: u8 = masks[i % 8];
            assert(byte == byte_at(color, i as int / 8));
            assert(mask == mask_at(i as int % 8));
            r.push(
                if byte & mask != 0 {
                    self.pulses.pulse_one
                } else {
                    self.pulses.pulse_zero
                },
            );
            i = i + 1;
            assert(encoded(self.pulses, color).take(i as int) =~= encoded(
                self.pulses,
                color,
            ).take(i - 1).push(encoded(self.pulses, color)[i - 1]));
        }
        r.push(PulseCode { high_ticks: 0, low_ticks: 0 });
        assert(r@ =~= encoded(self.pulses, color));
        r
    }

    /// What is transmitted to bring colors to the LEDs: a pulse that resets the strip, then one
    /// color after the other.
    pub fn write(&self, colors: &Vec<RGB8>) -> (r: Vec<Vec<PulseCode>>)
        requires
            colors@.len() > 0,
        ensures
            r@.len() == colors@.len() + 1,
            r@[0]@ == seq![self.pulses.pulse_reset, end_marker()],
            forall|i: int|
                0 <= i < colors@.len() ==> (#[trigger] r@[i + 1])@ == encoded(
                    self.pulses,
                    colors@[i],
                ),
    {
        let mut reset: Vec<PulseCode> = Vec::new();
        reset.push(self.pulses.pulse_reset);
        reset.push(PulseCode { high_ticks: 0, low_ticks: 0 });
        assert(reset@ =~= seq![self.pulses.pulse_reset, end_marker()]);
        let mut r: Vec<Vec<PulseCode>> = Vec::new();
        r.push(reset);
        let mut i: usize = 0;
        while i < colors.len()
            invariant
                i <= colors@.len(),
                r@.len() == i + 1,
                r@[0]@ == seq![self.pulses.pulse_reset, end_marker()],
                forall|j: int|
                    0 <= j < i ==> (#[trigger] r@[j + 1])@ == encoded(self.pulses, colors@[j]),
            decreases colors@.len() - i,
        {
            r.push(self.encode_color(colors[i]));
            i = i + 1;
        }
        r
    }
}

proof fn lemma_byte_from_bits(a: u8, b: u8)
    requires
        forall|pos: int|
            0 <= pos < 8 ==> (a & #[trigger] mask_at(pos) != 0) == (b & mask_at(pos) != 0),
    ensures
        a == b,
{
    assert((a & 128 != 0) == (b & 128 != 0)) by {
        assert(mask_at(0) == 128);
    }
    assert((a & 64 != 0) == (b & 64 != 0)) by {
        assert(mask_at(1) == 64);
    }
    assert((a & 32 != 0) == (b & 32 != 0)) by {
        assert(mask_at(2) == 32);
    }
    assert((a & 16 != 0) == (b & 16 != 0)) by {
        assert(mask_at(3) == 16);
    }
    assert((a & 8 != 0) == (b & 8 != 0)) by {
        assert(mask_at(4) == 8);
    }
    assert((a & 4 != 0) == (b & 4 != 0)) by {
        assert(mask_at(5) == 4);
    }
    assert((a & 2 != 0) == (b & 2 != 0)) by {
        assert(mask_at(6) == 2);
    }
    assert((a & 1 != 0) == (b & 1 != 0)) by {
        assert(mask_at(7) == 1);
    }
    assert(a == b) by (bit_vector)
        requires
            (a & 128 != 0) == (b & 128 != 0),
            (a & 64 != 0) == (b & 64 != 0),
            (a & 32 != 0) == (b & 32 != 0),
            (a & 16 != 0) == (b & 16 != 0),
            (a & 8 != 0) == (b & 8 != 0),
            (a & 4 != 0) == (b & 4 != 0),
            (a & 2 != 0) == (b & 2 != 0),
            (a & 1 != 0) == (b & 1 != 0),
    ;
}

/// The strip can tell colors apart: as long as a zero and a one do, two colors look the same only
/// if they are the same.
pub proof fn lemma_encoding_is_injective(pulses: Pulses, a: RGB8, b: RGB8)
    requires
        pulses.pulse_zero != pulses.pulse_one,
        encoded(pulses, a) == encoded(pulses, b),
    ensures
        a == b,
{
    assert forall|which: int, pos: int|
        0 <= which < 3 && 0 <= pos < 8 implies (#[trigger] byte_at(a, which)
        & #[trigger] mask_at(pos) != 0) == (byte_at(b, which) & mask_at(pos) != 0) by {
        let i = which * 8 + pos;
        assert(i / 8 == which && i % 8 == pos);
        assert(0 <= i < 24);
        let (x, y) = (encoded(pulses, a)[i], encoded(pulses, b)[i]);
        assert(x == y);
        assert((x == pulses.pulse_one) == (byte_at(a, i / 8) & mask_at(i % 8) != 0));
        assert((y == pulses.pulse_one) == (byte_at(b, i / 8) & mask_at(i % 8) != 0));
    }
    assert(byte_at(a, 0) == a.g && byte_at(b, 0) == b.g);
    assert(byte_at(a, 1) == a.r && byte_at(b, 1) == b.r);
    assert(byte_at(a, 2) == a.b && byte_at(b, 2) == b.b);
    lemma_byte_from_bits(a.g, b.g);
    lemma_byte_from_bits(a.r, b.r);
    lemma_byte_from_bits(a.b, b.b);
}

/// A color is sent as 24 bits: green, then red, then blue, of each the highest bit first. After
/// them comes the end.
pub proof fn lemma_bits_in_order(pulses: Pulses, c: RGB8, pos: u8)
    requires
        pos < 8,
    ensures
        ({
            let e = encoded(pulses, c);
            let pulse = |byte: u8|
                if (byte >> ((7 - pos) as u8)) & 1 == 1 {
                    pulses.pulse_one
                } else {
                    pulses.pulse_zero
                };
            &&& e.len() == 25
            &&& e[pos as int] == pulse(c.g)
            &&& e[8 + pos as int] == pulse(c.r)
            &&& e[16 + pos as int] == pulse(c.b)
            &&& e[24] == (PulseCode { high_ticks: 0, low_ticks: 0 })
        }),
{
    lemma_bit_of_mask(c.g, pos);
    lemma_bit_of_mask(c.r, pos);
    lemma_bit_of_mask(c.b, pos);
}

proof fn lemma_bit_of_mask(byte: u8, pos: u8)
    requires
        pos < 8,
    ensures
        (byte & mask_at(pos as int) != 0) == ((byte >> ((7 - pos) as u8)) & 1 == 1),
{
    let mask = mask_at(pos as int);
    let shift = (7 - pos) as u8;
    assert((byte & mask != 0) == ((byte >> shift) & 1 == 1)) by (bit_vector)
        requires
            (mask == 128 && shift == 7) || (mask == 64 && shift == 6) || (mask == 32 && shift == 5)
                || (mask == 16 && shift == 4) || (mask == 8 && shift == 3) || (mask == 4 && shift
                == 2) || (mask == 2 && shift == 1) || (mask == 1 && shift == 0),
    ;
}

/// A pulse takes as many ticks of the clock as fit into its time.
pub proof fn lemma_pulse_ticks(high_ns: int, low_ns: int, clock_mhz: u32)
    requires
        0 <= high_ns,
        0 <= low_ns,
        high_ns * clock_mhz < 65_536_000,
        low_ns * clock_mhz < 65_536_000,
    ensures
        ({
            let p = pulse_ns(high_ns, low_ns, clock_mhz);
            &&& p.high_ticks * 1000 <= high_ns * clock_mhz < (p.high_ticks + 1) * 1000
            &&& p.low_ticks * 1000 <= low_ns * clock_mhz < (p.low_ticks + 1) * 1000
        }),
{
    assert(0 <= high_ns * clock_mhz && 0 <= low_ns * clock_mhz) by (nonlinear_arith)
        requires
            0 <= high_ns,
            0 <= low_ns,
            0 <= clock_mhz,
    ;
}

} // verus!
