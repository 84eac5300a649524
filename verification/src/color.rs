//! Colour channels and colours.
//!
//! A channel is a single-precision number held by its IEEE-754 bit
//! pattern. Every test that the library makes on a channel (is it between
//! zero and one, is it exactly zero, is it exactly one) is a comparison of
//! that pattern, so the library needs no arithmetic on the numbers
//! themselves. A caller turns a number into its pattern and back.

use vstd::prelude::*;

verus! {

/// The pattern of `1.0`.
pub const ONE: u32 = 0x3F80_0000;

/// The pattern of `0.0`.
pub const ZERO: u32 = 0;

/// The pattern of `-0.0`, which compares equal to `0.0`.
pub const NEGATIVE_ZERO: u32 = 0x8000_0000;

/// The pattern of positive infinity: above it, patterns without the sign
/// are not numbers.
pub const INFINITY: u32 = 0x7F80_0000;

/// Whether the number with this pattern lies between `0.0` and `1.0`, both
/// included. Patterns without the sign grow with the number they stand
/// for, so those are the patterns up to that of `1.0`, and `-0.0`. What is
/// not a number lies in no range.
pub open spec fn in_unit_range(bits: u32) -> bool {
    bits <= ONE || bits == NEGATIVE_ZERO
}

/// Whether the number with this pattern equals `0.0`.
pub open spec fn is_zero(bits: u32) -> bool {
    bits == ZERO || bits == NEGATIVE_ZERO
}

/// Whether the number with this pattern equals `1.0`.
pub open spec fn is_one(bits: u32) -> bool {
    bits == ONE
}

/// Whether each of the four channels lies between `0.0` and `1.0`.
pub open spec fn channels_in_range(color: [u32; 4]) -> bool {
    forall|i: int| 0 <= i < 4 ==> in_unit_range(#[trigger] color[i])
}

/// The number in `[0, 1]` nearest to the one with this pattern, as a
/// pattern without the sign: a number below zero gives `0.0`, one above
/// one gives `1.0`, and what is not a number gives `0.0`.
pub open spec fn clamped(bits: u32) -> u32 {
    if bits <= ONE {
        bits
    } else if bits <= INFINITY {
        ONE
    } else {
        ZERO
    }
}

/// Tests whether the number with this pattern lies in [0.0, 1.0].
pub fn channel_in_range(bits: u32) -> (inside: bool)
    ensures
        inside == in_unit_range(bits),
{
    bits <= ONE || bits == NEGATIVE_ZERO
}

/// Tests whether each of the four channels lies in [0.0, 1.0].
pub fn color_in_range(color: &[u32; 4]) -> (inside: bool)
    ensures
        inside == channels_in_range(*color),
{
    channel_in_range(color[0]) && channel_in_range(color[1]) && channel_in_range(color[2])
        && channel_in_range(color[3])
}

/// A number bounded to the range [0.0, 1.0], held by its pattern.
///
/// The pattern held carries no sign, so that two of these are equal, or
/// one is below the other, exactly as the numbers that they hold.
#[derive(Copy, Clone, Debug, PartialEq, Eq, Structural)]
pub struct NormFloat(u32);

impl NormFloat {
    /// The pattern is that of a number of the range, without a sign.
    #[verifier::type_invariant]
    spec fn normalized(self) -> bool {
        self.0 <= ONE
    }

    /// The pattern of the number held.
    pub closed spec fn bits(self) -> u32 {
        self.0
    }

    /// The number with the given pattern, clamped into the range.
    pub closed spec fn spec_from_bits(bits: u32) -> NormFloat {
        NormFloat(clamped(bits))
    }

    /// What is held is the pattern that was clamped: that of a number in
    /// the range, without a sign.
    pub proof fn lemma_bits(bits: u32)
        ensures
            NormFloat::spec_from_bits(bits).bits() == clamped(bits),
            NormFloat::spec_from_bits(bits).bits() <= ONE,
            in_unit_range(NormFloat::spec_from_bits(bits).bits()),
    {
    }

    /// Clamp the number with the given pattern into the range: a number
    /// below `0.0`, and what is not a number, gives `0.0`; a number above
    /// `1.0` gives `1.0`.
    pub fn from_bits(bits: u32) -> (f: NormFloat)
        ensures
            f == NormFloat::spec_from_bits(bits),
            f.bits() == clamped(bits),
    {
        if bits <= ONE {
            NormFloat(bits)
        } else if bits <= INFINITY {
            NormFloat(ONE)
        } else {
            NormFloat(ZERO)
        }
    }

    /// The pattern of the number held: that of a number in the range.
    pub fn to_bits(&self) -> (bits: u32)
        ensures
            bits == self.bits(),
            bits <= ONE,
    {
        proof {
            use_type_invariant(self);
        }
        self.0
    }
}

impl PartialOrd for NormFloat {
    fn partial_cmp(&self, other: &NormFloat) -> (order: Option<std::cmp::Ordering>) {
        if self.0 < other.0 {
            Some(std::cmp::Ordering::Less)
        } else if self.0 == other.0 {
            Some(std::cmp::Ordering::Equal)
        } else {
            Some(std::cmp::Ordering::Greater)
        }
    }
}

impl vstd::std_specs::cmp::PartialOrdSpecImpl for NormFloat {
    open spec fn obeys_partial_cmp_spec() -> bool {
        true
    }

    /// Two of these compare as the numbers that they hold, which is as
    /// their patterns.
    open spec fn partial_cmp_spec(&self, other: &NormFloat) -> Option<std::cmp::Ordering> {
        if self.bits() < other.bits() {
            Some(std::cmp::Ordering::Less)
        } else if self.bits() == other.bits() {
            Some(std::cmp::Ordering::Equal)
        } else {
            Some(std::cmp::Ordering::Greater)
        }
    }
}

impl From<u32> for NormFloat {
    fn from(bits: u32) -> (f: NormFloat) {
        NormFloat::from_bits(bits)
    }
}

impl vstd::std_specs::convert::FromSpecImpl<u32> for NormFloat {
    open spec fn obeys_from_spec() -> bool {
        true
    }

    open spec fn from_spec(bits: u32) -> NormFloat {
        NormFloat::spec_from_bits(bits)
    }
}

/// A colour: red, green, blue and alpha, each clamped to [0.0, 1.0].
#[derive(Copy, Clone, Debug, PartialEq, Eq, Structural)]
pub struct Color {
    pub r: NormFloat,
    pub g: NormFloat,
    pub b: NormFloat,
    pub a: NormFloat,
}

impl Color {
    /// The colour of the four channels.
    pub fn new(r: NormFloat, g: NormFloat, b: NormFloat, a: NormFloat) -> (c: Color)
        ensures
            c == (Color { r, g, b, a }),
    {
        Color { r, g, b, a }
    }

    /// The colour of four channels, each clamped.
    pub open spec fn spec_from_bits(color: [u32; 4]) -> Color {
        Color {
            r: NormFloat::spec_from_bits(color[0]),
            g: NormFloat::spec_from_bits(color[1]),
            b: NormFloat::spec_from_bits(color[2]),
            a: NormFloat::spec_from_bits(color[3]),
        }
    }

    /// The opaque colour of red, green and blue, each clamped.
    pub open spec fn spec_from_rgb_bits(color: [u32; 3]) -> Color {
        Color {
            r: NormFloat::spec_from_bits(color[0]),
            g: NormFloat::spec_from_bits(color[1]),
            b: NormFloat::spec_from_bits(color[2]),
            a: NormFloat::spec_from_bits(ONE),
        }
    }

    /// Build a colour from four channels, clamping each.
    pub fn from_bits(color: [u32; 4]) -> (c: Color)
        ensures
            c == Color::spec_from_bits(color),
    {
        Color {
            r: NormFloat::from_bits(color[0]),
            g: NormFloat::from_bits(color[1]),
            b: NormFloat::from_bits(color[2]),
            a: NormFloat::from_bits(color[3]),
        }
    }

    /// Build an opaque colour from red, green and blue, clamping each.
    pub fn from_rgb_bits(color: [u32; 3]) -> (c: Color)
        ensures
            c == Color::spec_from_rgb_bits(color),
    {
        Color {
            r: NormFloat::from_bits(color[0]),
            g: NormFloat::from_bits(color[1]),
            b: NormFloat::from_bits(color[2]),
            a: NormFloat::from_bits(ONE),
        }
    }

    /// The four channels as patterns, each in range.
    pub fn as_array(&self) -> (color: [u32; 4])
        ensures
            color[0] == self.r.bits(),
            color[1] == self.g.bits(),
            color[2] == self.b.bits(),
            color[3] == self.a.bits(),
            channels_in_range(color),
    {
        let color: [u32; 4] = [self.r.to_bits(), self.g.to_bits(), self.b.to_bits(), self.a.to_bits()];
        color
    }

    /// A colour is opaque when its alpha is exactly `1.0`.
    pub fn is_opaque(&self) -> (opaque: bool)
        ensures
            opaque == is_one(self.a.bits()),
    {
        self.a.to_bits() == ONE
    }

    /// White: every channel `1.0`.
    pub fn white() -> (c: Color)
        ensures
            c == Color::spec_from_bits([ONE, ONE, ONE, ONE]),
    {
        Color::from_bits([ONE, ONE, ONE, ONE])
    }

    /// Black, opaque.
    pub fn black() -> (c: Color)
        ensures
            c == Color::spec_from_bits([ZERO, ZERO, ZERO, ONE]),
    {
        Color::from_bits([ZERO, ZERO, ZERO, ONE])
    }

    /// Black, fully transparent.
    pub fn clear() -> (c: Color)
        ensures
            c == Color::spec_from_bits([ZERO, ZERO, ZERO, ZERO]),
    {
        Color::from_bits([ZERO, ZERO, ZERO, ZERO])
    }

    /// Red, opaque.
    pub fn red() -> (c: Color)
        ensures
            c == Color::spec_from_bits([ONE, ZERO, ZERO, ONE]),
    {
        Color::from_bits([ONE, ZERO, ZERO, ONE])
    }

    /// Green, opaque.
    pub fn green() -> (c: Color)
        ensures
            c == Color::spec_from_bits([ZERO, ONE, ZERO, ONE]),
    {
        Color::from_bits([ZERO, ONE, ZERO, ONE])
    }

    /// Blue, opaque.
    pub fn blue() -> (c: Color)
        ensures
            c == Color::spec_from_bits([ZERO, ZERO, ONE, ONE]),
    {
        Color::from_bits([ZERO, ZERO, ONE, ONE])
    }
}

impl From<[u32; 4]> for Color {
    fn from(color: [u32; 4]) -> (c: Color) {
        Color::from_bits(color)
    }
}

impl vstd::std_specs::convert::FromSpecImpl<[u32; 4]> for Color {
    open spec fn obeys_from_spec() -> bool {
        true
    }

    open spec fn from_spec(color: [u32; 4]) -> Color {
        Color::spec_from_bits(color)
    }
}

impl From<[u32; 3]> for Color {
    fn from(color: [u32; 3]) -> (c: Color) {
        Color::from_rgb_bits(color)
    }
}

impl vstd::std_specs::convert::FromSpecImpl<[u32; 3]> for Color {
    open spec fn obeys_from_spec() -> bool {
        true
    }

    open spec fn from_spec(color: [u32; 3]) -> Color {
        Color::spec_from_rgb_bits(color)
    }
}

/// Clamping keeps a number of the range, but for the sign of zero; what it
/// gives lies in the range, and to clamp it again changes nothing.
pub proof fn lemma_clamped(bits: u32)
    ensures
        in_unit_range(clamped(bits)),
        clamped(bits) <= ONE,
        clamped(clamped(bits)) == clamped(bits),
        in_unit_range(bits) && bits != NEGATIVE_ZERO ==> clamped(bits) == bits,
        bits == NEGATIVE_ZERO ==> clamped(bits) == ZERO,
        !in_unit_range(bits) ==> clamped(bits) == ZERO || clamped(bits) == ONE,
{
}

} // verus!
