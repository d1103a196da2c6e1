//! Small value types shared by the whole crate: optional integers without a tag,
//! packed fields and packed colors.

use vstd::prelude::*;

verus! {

/// An integer type whose largest value can stand for "nothing".
pub trait BoundedInteger: Copy + PartialEq {
    /// The largest value of the type.
    spec fn max_value() -> Self;

    /// The largest value of the type.
    fn maximum() -> (m: Self)
        ensures
            m == Self::max_value(),
    ;

    /// Whether `self` is the largest value of the type.
    fn is_maximum(self) -> (b: bool)
        ensures
            b == (self == Self::max_value()),
    ;
}

impl BoundedInteger for u8 {
    open spec fn max_value() -> u8 {
        u8::MAX
    }

    fn maximum() -> (m: u8) {
        u8::MAX
    }

    fn is_maximum(self) -> (b: bool) {
        self == u8::MAX
    }
}

impl BoundedInteger for i8 {
    open spec fn max_value() -> i8 {
        i8::MAX
    }

    fn maximum() -> (m: i8) {
        i8::MAX
    }

    fn is_maximum(self) -> (b: bool) {
        self == i8::MAX
    }
}

impl BoundedInteger for u16 {
    open spec fn max_value() -> u16 {
        u16::MAX
    }

    fn maximum() -> (m: u16) {
        u16::MAX
    }

    fn is_maximum(self) -> (b: bool) {
        self == u16::MAX
    }
}

impl BoundedInteger for i16 {
    open spec fn max_value() -> i16 {
        i16::MAX
    }

    fn maximum() -> (m: i16) {
        i16::MAX
    }

    fn is_maximum(self) -> (b: bool) {
        self == i16::MAX
    }
}

impl BoundedInteger for u32 {
    open spec fn max_value() -> u32 {
        u32::MAX
    }

    fn maximum() -> (m: u32) {
        u32::MAX
    }

    fn is_maximum(self) -> (b: bool) {
        self == u32::MAX
    }
}

impl BoundedInteger for i32 {
    open spec fn max_value() -> i32 {
        i32::MAX
    }

    fn maximum() -> (m: i32) {
        i32::MAX
    }

    fn is_maximum(self) -> (b: bool) {
        self == i32::MAX
    }
}

/// An optional integer in which the largest value of the type means "none".
#[derive(Debug, Copy, PartialEq, Eq)]
pub struct NonMax<T: BoundedInteger>(T);

impl<T: BoundedInteger> Clone for NonMax<T> {
    fn clone(&self) -> (r: Self)
        ensures
            r == *self,
    {
        *self
    }
}

impl<T: BoundedInteger> View for NonMax<T> {
    type V = Option<T>;

    closed spec fn view(&self) -> Option<T> {
        if self.0 == T::max_value() {
            None
        } else {
            Some(self.0)
        }
    }
}

impl<T: BoundedInteger> NonMax<T> {
    /// The value that stands for "none".
    pub closed spec fn spec_none() -> Self {
        NonMax(T::max_value())
    }

    /// `value` as it is.
    pub closed spec fn spec_of(value: T) -> Self {
        NonMax(value)
    }

    /// The value that stands for "none".
    pub fn none() -> (r: Self)
        ensures
            r@ is None,
            r == Self::spec_none(),
    {
        NonMax(T::maximum())
    }

    /// Wraps `value`, unless it is the reserved one.
    pub fn new(value: T) -> (r: Option<Self>)
        ensures
            r is None <==> value == T::max_value(),
            r matches Some(n) ==> n@ == Some(value) && n == Self::spec_of(value),
    {
        if value.is_maximum() {
            None
        } else {
            Some(NonMax(value))
        }
    }

    /// Takes `value` as it is: the reserved one reads as "none".
    pub fn new_unchecked(value: T) -> (r: Self)
        ensures
            r == Self::spec_of(value),
            r@ == (if value == T::max_value() {
                None
            } else {
                Some(value)
            }),
    {
        NonMax(value)
    }

    pub fn is_none(&self) -> (b: bool)
        ensures
            b == (self@ is None),
    {
        self.0.is_maximum()
    }

    pub fn is_some(&self) -> (b: bool)
        ensures
            b == (self@ is Some),
    {
        !self.0.is_maximum()
    }

    pub fn as_option(&self) -> (r: Option<T>)
        ensures
            r == self@,
    {
        if self.is_none() {
            None
        } else {
            Some(self.0)
        }
    }
}

/// Two optional integers that read the same are the same value.
pub proof fn lemma_non_max_view_injective<T: BoundedInteger>(a: NonMax<T>, b: NonMax<T>)
    ensures
        (a@ == b@) == (a == b),
{
}

/// What the values of the type read as.
pub proof fn lemma_non_max_views<T: BoundedInteger>(value: T)
    ensures
        NonMax::<T>::spec_none()@ is None,
        value == T::max_value() ==> NonMax::<T>::spec_of(value)@ is None,
        value != T::max_value() ==> NonMax::<T>::spec_of(value)@ == Some(value),
{
}

/// An RGB color with eight bits per channel.
#[derive(Debug, Copy, Clone, PartialEq, Eq, Structural)]
pub struct RGB8 {
    pub r: u8,
    pub g: u8,
    pub b: u8,
}

/// The color of an LED that is off.
pub open spec fn spec_black() -> RGB8 {
    RGB8 { r: 0, g: 0, b: 0 }
}

/// The color of an LED that is off.
#[verifier::when_used_as_spec(spec_black)]
pub fn black() -> (c: RGB8)
    ensures
        c == spec_black(),
{
    RGB8 { r: 0, g: 0, b: 0 }
}

/// A color as one number: red above green above blue, eight bits each.
pub open spec fn packed_rgb8(red: u8, green: u8, blue: u8) -> int {
    red * 0x10000 + green * 0x100 + blue
}

/// The color held in the low 24 bits of `packed`.
pub open spec fn unpacked_rgb8(packed: u32) -> RGB8 {
    RGB8 {
        r: (packed / 0x10000 % 0x100) as u8,
        g: (packed / 0x100 % 0x100) as u8,
        b: (packed % 0x100) as u8,
    }
}

pub fn pack_rgb8(red: u8, green: u8, blue: u8) -> (packed: u32)
    ensures
        packed == packed_rgb8(red, green, blue),
{
    let r: u32 = red as u32;
    let g: u32 = green as u32;
    let b: u32 = blue as u32;
    assert((r << 16) | (g << 8) | b == r * 0x10000 + g * 0x100 + b) by (bit_vector)
        requires
            r < 256,
            g < 256,
            b < 256,
    ;
    (r << 16) | (g << 8) | b
}

pub fn rgb8_from_packed(packed: u32) -> (rgb: RGB8)
    ensures
        rgb == unpacked_rgb8(packed),
{
    assert((packed >> 16) & 0xFF == packed / 0x10000 % 0x100 && (packed >> 8) & 0xFF == packed
        / 0x100 % 0x100 && packed & 0xFF == packed % 0x100) by (bit_vector);
    RGB8 {
        r: ((packed >> 16) & 0xFF) as u8,
        g: ((packed >> 8) & 0xFF) as u8,
        b: (packed & 0xFF) as u8,
    }
}

/// Channel by channel the brighter one of two colors.
pub open spec fn brighter_rgb8(a: RGB8, b: RGB8) -> RGB8 {
    RGB8 {
        r: if a.r >= b.r {
            a.r
        } else {
            b.r
        },
        g: if a.g >= b.g {
            a.g
        } else {
            b.g
        },
        b: if a.b >= b.b {
            a.b
        } else {
            b.b
        },
    }
}

pub fn rgb8_max(a: RGB8, b: RGB8) -> (c: RGB8)
    ensures
        c == brighter_rgb8(a, b),
{
    RGB8 {
        r: if a.r >= b.r {
            a.r
        } else {
            b.r
        },
        g: if a.g >= b.g {
            a.g
        } else {
            b.g
        },
        b: if a.b >= b.b {
            a.b
        } else {
            b.b
        },
    }
}

/// Unpacking a packed color gives the color back.
pub proof fn lemma_unpack_of_pack(red: u8, green: u8, blue: u8)
    ensures
        unpacked_rgb8(packed_rgb8(red, green, blue) as u32) == (RGB8 { r: red, g: green, b: blue }),
{
    let p = packed_rgb8(red, green, blue);
    let q = red * 0x100 + green;
    assert(p / 0x100 == q && p % 0x100 == blue);
    assert(p / 0x10000 == red);
    assert(q % 0x100 == green);
}

/// Packing an unpacked color gives the low 24 bits back.
pub proof fn lemma_pack_of_unpack(packed: u32)
    ensures
        ({
            let rgb = unpacked_rgb8(packed);
            packed_rgb8(rgb.r, rgb.g, rgb.b) == packed % 0x1000000
        }),
{
}

/// The upper half of a word that holds two 16-bit fields.
pub open spec fn high16(word: u32) -> u32 {
    word / 0x10000
}

/// The lower half of a word that holds two 16-bit fields.
pub open spec fn low16(word: u32) -> u32 {
    word % 0x10000
}

pub fn get_high16(word: u32) -> (half: u32)
    ensures
        half == high16(word),
        half <= 0xFFFF,
{
    assert(word >> 16 == word / 0x10000) by (bit_vector);
    word >> 16
}

pub fn get_low16(word: u32) -> (half: u32)
    ensures
        half == low16(word),
        half <= 0xFFFF,
{
    assert(word & 0xFFFF == word % 0x10000) by (bit_vector);
    word & 0xFFFF
}

/// Two 16-bit fields joined in one word.
pub open spec fn joined16(high: u32, low: u32) -> int {
    high * 0x10000 + low
}

/// A word of two fields holds exactly what was joined into it.
pub proof fn lemma_joined_halves(high: u32, low: u32)
    requires
        high <= 0xFFFF,
        low <= 0xFFFF,
    ensures
        high16(joined16(high, low) as u32) == high,
        low16(joined16(high, low) as u32) == low,
{
}

/// The digit for a number below 16, in lower case.
pub open spec fn hex_digit_lower(n: int) -> char {
    if n == 0 {
        '0'
    } else if n == 1 {
        '1'
    } else if n == 2 {
        '2'
    } else if n == 3 {
        '3'
    } else if n == 4 {
        '4'
    } else if n == 5 {
        '5'
    } else if n == 6 {
        '6'
    } else if n == 7 {
        '7'
    } else if n == 8 {
        '8'
    } else if n == 9 {
        '9'
    } else if n == 10 {
        'a'
    } else if n == 11 {
        'b'
    } else if n == 12 {
        'c'
    } else if n == 13 {
        'd'
    } else if n == 14 {
        'e'
    } else {
        'f'
    }
}

/// The digit for a number below 16, in upper case.
pub open spec fn hex_digit_upper(n: int) -> char {
    if n == 10 {
        'A'
    } else if n == 11 {
        'B'
    } else if n == 12 {
        'C'
    } else if n == 13 {
        'D'
    } else if n == 14 {
        'E'
    } else if n == 15 {
        'F'
    } else {
        hex_digit_lower(n)
    }
}

/// A byte as two digits, in lower case.
pub open spec fn hex_lower(byte: u8) -> Seq<char> {
    seq![hex_digit_lower(byte as int / 16), hex_digit_lower(byte as int % 16)]
}

/// A byte as two digits, in upper case.
pub open spec fn hex_upper(byte: u8) -> Seq<char> {
    seq![hex_digit_upper(byte as int / 16), hex_digit_upper(byte as int % 16)]
}

fn lower_digit(n: u8) -> (s: &'static str)
    requires
        n < 16,
    ensures
        s@ == seq![hex_digit_lower(n as int)],
{
    let digits = "0123456789abcdef";
    proof {
        reveal_strlit("0123456789abcdef");
    }
    let s = digits.substring_char(n as usize, n as usize + 1);
    assert(s@ =~= seq![hex_digit_lower(n as int)]);
    s
}

fn upper_digit(n: u8) -> (s: &'static str)
    requires
        n < 16,
    ensures
        s@ == seq![hex_digit_upper(n as int)],
{
    let digits = "0123456789ABCDEF";
    proof {
        reveal_strlit("0123456789ABCDEF");
    }
    let s = digits.substring_char(n as usize, n as usize + 1);
    assert(s@ =~= seq![hex_digit_upper(n as int)]);
    s
}

/// Appends a byte as two digits, in lower case.
pub fn append_hex_lower(s: &mut String, byte: u8)
    ensures
        final(s)@ == old(s)@ + hex_lower(byte),
{
    s.append(lower_digit(byte / 16));
    s.append(lower_digit(byte % 16));
    assert(s@ =~= old(s)@ + hex_lower(byte));
}

/// Appends a byte as two digits, in upper case.
pub fn append_hex_upper(s: &mut String, byte: u8)
    ensures
        final(s)@ == old(s)@ + hex_upper(byte),
{
    s.append(upper_digit(byte / 16));
    s.append(upper_digit(byte % 16));
    assert(s@ =~= old(s)@ + hex_upper(byte));
}

/// The channels of a packed color stand in it as its three lowest bytes: red above green above
/// blue.
pub proof fn lemma_rgb8_channels(packed: u32)
    ensures
        ({
            let rgb = unpacked_rgb8(packed);
            rgb.r * 0x10000 + rgb.g * 0x100 + rgb.b == packed % 0x1000000
        }),
{
}

/// The brighter one of two colors has, in each channel, the value of one of the two that is no
/// less than that of the other.
pub proof fn lemma_brighter_rgb8(a: RGB8, b: RGB8)
    ensures
        ({
            let c = brighter_rgb8(a, b);
            &&& c.r >= a.r && c.r >= b.r && (c.r == a.r || c.r == b.r)
            &&& c.g >= a.g && c.g >= b.g && (c.g == a.g || c.g == b.g)
            &&& c.b >= a.b && c.b >= b.b && (c.b == a.b || c.b == b.b)
        }),
{
}

/// A word is made of its two fields: its upper half counts 65536 each, its lower half is less than
/// that.
pub proof fn lemma_halves_of_word(word: u32)
    ensures
        high16(word) * 0x10000 + low16(word) == word,
        low16(word) < 0x10000,
{
}

/// A digit stands for its number: from '0' for 0 to '9' for 9, and then from 'a', or 'A', for 10.
pub proof fn lemma_hex_digits(n: int)
    requires
        0 <= n < 16,
    ensures
        n < 10 ==> hex_digit_lower(n) as int == '0' as int + n,
        n < 10 ==> hex_digit_upper(n) as int == '0' as int + n,
        n >= 10 ==> hex_digit_lower(n) as int == 'a' as int + (n - 10),
        n >= 10 ==> hex_digit_upper(n) as int == 'A' as int + (n - 10),
{
}

/// A byte is written as two digits, the one that counts 16 first.
pub proof fn lemma_hex_of_byte(byte: u8, high: int, low: int)
    requires
        0 <= high < 16,
        0 <= low < 16,
        byte == high * 16 + low,
    ensures
        hex_lower(byte) == seq![hex_digit_lower(high), hex_digit_lower(low)],
        hex_upper(byte) == seq![hex_digit_upper(high), hex_digit_upper(low)],
{
}

} // verus!
